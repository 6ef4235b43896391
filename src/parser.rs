use vstd::prelude::*;
use vstd::string::*;

use crate::decode::{decode_line, find_char, find_char_exec, opt_int, same_text};
use crate::dependency::{
    entries_view, DepParseResult, DepParseView, Dependency, DependencyView, DepsError, EntryView,
    GradleEntry, LineParseResult, ParsedDependency, ParsedView, Versions, versions_view,
};
use crate::version::{
    applicable, compare_version_text, display, version_order, Version, VersionOrder, VersionView,
};

verus! {

/// Position of the line parser within one report.
#[derive(Debug, Clone, Copy, PartialEq, Eq, Structural)]
pub enum ParserState {
    /// Lines are ignored until the root-project marker.
    SeekingRoot,
    /// This many more lines are discarded.
    SkippingFixedCount(usize),
    /// Lines are task headers or dependency lines.
    AwaitingTaskOrDependency,
    /// The terminator was seen; every further line is ignored.
    End,
}

/// The dependencies of one report, in order of first sighting.
#[derive(Debug, Clone)]
pub struct Snapshot {
    pub deps: Vec<Dependency>,
}

pub open spec fn deps_view(d: Seq<Dependency>) -> Seq<DependencyView> {
    d.map_values(|x: Dependency| x@)
}

impl View for Snapshot {
    type V = Seq<DependencyView>;

    open spec fn view(&self) -> Seq<DependencyView> {
        deps_view(self.deps@)
    }
}

/// Index of the first dependency named `name` at or after `from`.
pub open spec fn find_dep(deps: Seq<DependencyView>, name: Seq<char>, from: int) -> Option<int>
    decreases deps.len() - from,
{
    if from < 0 || from >= deps.len() {
        None
    } else if deps[from].name == name {
        Some(from)
    } else {
        find_dep(deps, name, from + 1)
    }
}

/// Index of the first entry for configuration `config` at or after `from`.
pub open spec fn find_entry(entries: Seq<EntryView>, config: Seq<char>, from: int) -> Option<int>
    decreases entries.len() - from,
{
    if from < 0 || from >= entries.len() {
        None
    } else if entries[from].config == config {
        Some(from)
    } else {
        find_entry(entries, config, from + 1)
    }
}

pub open spec fn configs_unique(entries: Seq<EntryView>) -> bool {
    forall|i: int, j: int|
        0 <= i < j < entries.len() ==> entries[i].config != entries[j].config
}

/// Dependency names are unique, and so are configuration names within each dependency.
pub open spec fn snapshot_wf(deps: Seq<DependencyView>) -> bool {
    &&& forall|i: int, j: int| 0 <= i < j < deps.len() ==> deps[i].name != deps[j].name
    &&& forall|i: int| 0 <= i < deps.len() ==> configs_unique(#[trigger] deps[i].entries)
}

/// A configuration entry seeded from a first sighting.
pub open spec fn new_entry(config: Seq<char>, o: ParsedView) -> EntryView {
    EntryView { config, transitive: seq![o.transitive], pinned: o.pinned }
}

/// The pinned value after a repeat sighting: replaced only by an applicable
/// reading that is strictly greater, or when the current one is absent.
pub open spec fn merged_pinned(cur: VersionView, new: VersionView) -> Result<VersionView, ()> {
    if !applicable(new) {
        Ok(cur)
    } else if !applicable(cur) {
        Ok(new)
    } else {
        match version_order(display(new), display(cur)) {
            None => Err(()),
            Some(VersionOrder::Greater) => Ok(new),
            Some(_) => Ok(cur),
        }
    }
}

/// The transitive list after a repeat sighting: an applicable reading is added once.
pub open spec fn merged_transitive(cur: Seq<VersionView>, new: VersionView) -> Seq<VersionView> {
    if applicable(new) && !cur.contains(new) {
        cur.push(new)
    } else {
        cur
    }
}

pub open spec fn update_entry(e: EntryView, o: ParsedView) -> Result<EntryView, ()> {
    match merged_pinned(e.pinned, o.pinned) {
        Err(_) => Err(()),
        Ok(p) => Ok(
            EntryView { config: e.config, transitive: merged_transitive(e.transitive, o.transitive), pinned: p },
        ),
    }
}

/// Folds one decoded occurrence, seen under configuration `config`, into a snapshot.
pub open spec fn merge(deps: Seq<DependencyView>, config: Seq<char>, o: ParsedView) -> Result<
    Seq<DependencyView>,
    (),
> {
    match find_dep(deps, o.name, 0) {
        None => Ok(
            deps.push(
                DependencyView {
                    name: o.name,
                    namespace: o.namespace,
                    entries: seq![new_entry(config, o)],
                },
            ),
        ),
        Some(i) => {
            let d = deps[i];
            match find_entry(d.entries, config, 0) {
                None => Ok(
                    deps.update(
                        i,
                        DependencyView { entries: d.entries.push(new_entry(config, o)), ..d },
                    ),
                ),
                Some(j) => match update_entry(d.entries[j], o) {
                    Err(_) => Err(()),
                    Ok(e) => Ok(deps.update(i, DependencyView { entries: d.entries.update(j, e), ..d })),
                },
            }
        },
    }
}

pub proof fn lemma_find_dep(deps: Seq<DependencyView>, name: Seq<char>, from: int)
    requires
        0 <= from,
    ensures
        match find_dep(deps, name, from) {
            Some(i) => from <= i < deps.len() && deps[i].name == name,
            None => forall|j: int| from <= j < deps.len() ==> deps[j].name != name,
        },
    decreases deps.len() - from,
{
    if from < deps.len() && deps[from].name != name {
        lemma_find_dep(deps, name, from + 1);
    }
}

pub proof fn lemma_find_entry(entries: Seq<EntryView>, config: Seq<char>, from: int)
    requires
        0 <= from,
    ensures
        match find_entry(entries, config, from) {
            Some(i) => from <= i < entries.len() && entries[i].config == config,
            None => forall|j: int| from <= j < entries.len() ==> entries[j].config != config,
        },
    decreases entries.len() - from,
{
    if from < entries.len() && entries[from].config != config {
        lemma_find_entry(entries, config, from + 1);
    }
}

/// Merging keeps dependency names and configuration names unique.
pub proof fn lemma_merge_wf(deps: Seq<DependencyView>, config: Seq<char>, o: ParsedView)
    requires
        snapshot_wf(deps),
    ensures
        merge(deps, config, o) matches Ok(d) ==> snapshot_wf(d),
{
    lemma_find_dep(deps, o.name, 0);
    if let Some(i) = find_dep(deps, o.name, 0) {
        lemma_find_entry(deps[i].entries, config, 0);
        if let Ok(d) = merge(deps, config, o) {
            assert forall|k: int| 0 <= k < d.len() implies configs_unique(#[trigger] d[k].entries) by {
                if k != i {
                    assert(d[k] == deps[k]);
                }
            }
        }
    }
}

/// Parses one report, line by line, into a snapshot.
pub struct DependencyParser {
    pub state: ParserState,
    /// The configuration that dependency lines are currently filed under.
    pub curr_gradle_task: String,
    pub snapshot: Snapshot,
}

impl Snapshot {
    /// The dependency named `name`, if any.
    pub fn get(&self, name: &str) -> (r: Option<&Dependency>)
        ensures
            match find_dep(self@, name@, 0) {
                Some(i) => r matches Some(d) && *d == self.deps@[i],
                None => r is None,
            },
    {
        match self.position(name) {
            Some(i) => Some(&self.deps[i]),
            None => None,
        }
    }

    /// Index of the dependency named `name`, if any.
    pub fn position(&self, name: &str) -> (r: Option<usize>)
        ensures
            opt_int(r) == find_dep(self@, name@, 0),
            r matches Some(i) ==> i < self.deps@.len(),
    {
        let mut i: usize = 0;
        while i < self.deps.len()
            invariant
                i <= self.deps@.len(),
                find_dep(self@, name@, 0) == find_dep(self@, name@, i as int),
            decreases self.deps@.len() - i,
        {
            if same_text(self.deps[i].name.as_str(), name) {
                return Some(i);
            }
            i += 1;
        }
        None
    }
}

pub ghost struct ParserView {
    pub state: ParserState,
    pub config: Seq<char>,
    pub deps: Seq<DependencyView>,
}

impl View for DependencyParser {
    type V = ParserView;

    open spec fn view(&self) -> ParserView {
        ParserView { state: self.state, config: self.curr_gradle_task@, deps: self.snapshot@ }
    }
}

/// The text that opens the root-project line.
pub open spec fn root_marker() -> Seq<char> {
    seq!['R', 'o', 'o', 't', ' ', 'p', 'r', 'o', 'j', 'e', 'c', 't']
}

pub open spec fn starts_with_root(line: Seq<char>) -> bool {
    line.len() >= 12 && line.subrange(0, 12) == root_marker()
}

/// The tree-drawing glyphs, and the letter that opens `No dependencies`.
pub open spec fn is_glyph(c: char) -> bool {
    c == '\\' || c == '+' || c == '|' || c == 'N'
}

/// Whether `char::is_whitespace` holds of `c` (the Unicode White_Space property).
pub uninterp spec fn whitespace(c: char) -> bool;

/// Relies on `char::is_whitespace`, a fixed property of the character.
#[verifier::external_body]
fn is_whitespace(c: char) -> (r: bool)
    ensures
        r == whitespace(c),
{
    c.is_whitespace()
}

/// Index of the first non-whitespace character at or after `from`.
pub open spec fn find_non_space(s: Seq<char>, from: int) -> Option<int>
    decreases s.len() - from,
{
    if from < 0 || from >= s.len() {
        None
    } else if !whitespace(s[from]) {
        Some(from)
    } else {
        find_non_space(s, from + 1)
    }
}

/// A task header names the configuration by its text up to the first space.
pub open spec fn header_name(line: Seq<char>) -> Seq<char> {
    match find_char(line, ' ', 0) {
        Some(k) => line.subrange(0, k),
        None => line,
    }
}

/// One step of the report parser on one line.
pub open spec fn step(p: ParserView, line: Seq<char>) -> Result<(ParserView, LineParseResult), DepsError> {
    match p.state {
        ParserState::End => Ok((p, LineParseResult::End)),
        ParserState::SkippingFixedCount(n) => Ok(
            (
                ParserView {
                    state: if n <= 1 {
                        ParserState::AwaitingTaskOrDependency
                    } else {
                        ParserState::SkippingFixedCount((n - 1) as usize)
                    },
                    ..p
                },
                LineParseResult::Skip,
            ),
        ),
        _ => if starts_with_root(line) {
            Ok((ParserView { state: ParserState::SkippingFixedCount(2), ..p }, LineParseResult::Skip))
        } else if p.state is SeekingRoot || line.len() == 0 {
            Ok((p, LineParseResult::Skip))
        } else if line[0] == '(' {
            Ok((ParserView { state: ParserState::End, ..p }, LineParseResult::End))
        } else {
            match find_non_space(line, 0) {
                None => Ok((p, LineParseResult::Skip)),
                Some(i) => if is_glyph(line[i]) {
                    match decode_line(line) {
                        None => Err(DepsError::Decode),
                        Some(DepParseView::NoDependencies) => Ok(
                            (
                                ParserView { state: ParserState::SkippingFixedCount(1), ..p },
                                LineParseResult::Skip,
                            ),
                        ),
                        Some(DepParseView::Dep(o)) => match merge(p.deps, p.config, o) {
                            Err(_) => Err(DepsError::Comparison),
                            Ok(d) => Ok((ParserView { deps: d, ..p }, LineParseResult::Parsed)),
                        },
                    }
                } else {
                    Ok((ParserView { config: header_name(line), ..p }, LineParseResult::Skip))
                },
            }
        },
    }
}

fn find_non_space_exec(s: &str, n: usize) -> (r: Option<usize>)
    requires
        n == s@.len(),
    ensures
        opt_int(r) == find_non_space(s@, 0),
        r matches Some(i) ==> i < n,
{
    let mut i: usize = 0;
    while i < n
        invariant
            i <= n,
            n == s@.len(),
            find_non_space(s@, 0) == find_non_space(s@, i as int),
        decreases n - i,
    {
        if !is_whitespace(s.get_char(i)) {
            return Some(i);
        }
        i += 1;
    }
    None
}

impl DependencyParser {
    /// A parser that has seen no line yet.
    pub fn new() -> (r: DependencyParser)
        ensures
            r@ == (ParserView { state: ParserState::SeekingRoot, config: Seq::empty(), deps: Seq::empty() }),
    {
        let r = DependencyParser {
            state: ParserState::SeekingRoot,
            curr_gradle_task: String::new(),
            snapshot: Snapshot { deps: Vec::new() },
        };
        assert(r.snapshot@ =~= Seq::empty());
        r
    }

    /// Feeds one line to the parser. On failure nothing changes.
    pub fn parse_line(&mut self, line: String) -> (r: Result<LineParseResult, DepsError>)
        requires
            snapshot_wf(old(self)@.deps),
        ensures
            snapshot_wf(final(self)@.deps),
            match step(old(self)@, line@) {
                Ok((p, res)) => r == Ok::<LineParseResult, DepsError>(res) && final(self)@ == p,
                Err(e) => r == Err::<LineParseResult, DepsError>(e) && final(self)@ == old(self)@,
            },
    {
        match self.state {
            ParserState::End => {
                return Ok(LineParseResult::End);
            },
            ParserState::SkippingFixedCount(n) => {
                self.state = if n <= 1 {
                    ParserState::AwaitingTaskOrDependency
                } else {
                    ParserState::SkippingFixedCount(n - 1)
                };
                return Ok(LineParseResult::Skip);
            },
            _ => {},
        }
        let s = line.as_str();
        let n = s.unicode_len();
        if n >= 12 {
            let marker = "Root project";
            proof {
                reveal_strlit("Root project");
            }
            assert(marker@ =~= root_marker());
            if same_text(s.substring_char(0, 12), marker) {
                self.state = ParserState::SkippingFixedCount(2);
                return Ok(LineParseResult::Skip);
            }
        }
        if matches!(self.state, ParserState::SeekingRoot) || n == 0 {
            return Ok(LineParseResult::Skip);
        }
        if s.get_char(0) == '(' {
            self.state = ParserState::End;
            return Ok(LineParseResult::End);
        }
        match find_non_space_exec(s, n) {
            None => Ok(LineParseResult::Skip),
            Some(i) => {
                let c = s.get_char(i);
                if c == '\\' || c == '+' || c == '|' || c == 'N' {
                    match self.parse_dep_line(line) {
                        Err(e) => Err(e),
                        Ok(DepParseResult::NoDependencies) => {
                            self.state = ParserState::SkippingFixedCount(1);
                            Ok(LineParseResult::Skip)
                        },
                        Ok(DepParseResult::Dep(d)) => match self.add_or_update_dep(d) {
                            Err(e) => Err(e),
                            Ok(()) => Ok(LineParseResult::Parsed),
                        },
                    }
                } else {
                    let name = match find_char_exec(s, n, ' ', 0) {
                        Some(k) => String::from_str(s.substring_char(0, k)),
                        None => line.clone(),
                    };
                    self.curr_gradle_task = name;
                    Ok(LineParseResult::Skip)
                }
            },
        }
    }

    /// Folds a decoded occurrence into the snapshot under the current configuration.
    fn add_or_update_dep(&mut self, dependency: ParsedDependency) -> (r: Result<(), DepsError>)
        requires
            snapshot_wf(old(self)@.deps),
        ensures
            snapshot_wf(final(self)@.deps),
            final(self).state == old(self).state,
            final(self)@.config == old(self)@.config,
            match merge(old(self)@.deps, old(self)@.config, dependency@) {
                Ok(d) => r is Ok && final(self)@.deps == d,
                Err(_) => r == Err::<(), DepsError>(DepsError::Comparison) && final(self)@.deps
                    == old(self)@.deps,
            },
    {
        proof {
            lemma_merge_wf(self@.deps, self@.config, dependency@);
        }
        match self.snapshot.position(dependency.name.as_str()) {
            None => {
                self.add_dep(dependency);
                Ok(())
            },
            Some(i) => self.update_dep(i, dependency),
        }
    }

    /// Adds a dependency seen for the first time.
    fn add_dep(&mut self, dependency: ParsedDependency)
        requires
            find_dep(old(self)@.deps, dependency@.name, 0) is None,
        ensures
            final(self).state == old(self).state,
            final(self)@.config == old(self)@.config,
            final(self)@.deps == old(self)@.deps.push(
                DependencyView {
                    name: dependency@.name,
                    namespace: dependency@.namespace,
                    entries: seq![new_entry(old(self)@.config, dependency@)],
                },
            ),
    {
        let ghost o = dependency@;
        let mut transitive: Vec<Version> = Vec::new();
        transitive.push(dependency.transitive);
        assert(versions_view(transitive@) =~= seq![o.transitive]);
        let entry = GradleEntry {
            gradle_config_name: self.curr_gradle_task.clone(),
            versions: Versions { transitive, pinned: dependency.pinned },
        };
        assert(entry@ == new_entry(self@.config, o));
        let mut entries: Vec<GradleEntry> = Vec::new();
        entries.push(entry);
        let dep = Dependency {
            name: dependency.name,
            namespace: dependency.namespace,
            gradle_entries: entries,
        };
        assert(dep@.entries =~= seq![new_entry(self@.config, o)]);
        let ghost before = self.snapshot.deps@;
        self.snapshot.deps.push(dep);
        assert(deps_view(self.snapshot.deps@) =~= deps_view(before).push(dep@));
    }

    /// Records a repeat sighting of the dependency at index `i`.
    fn update_dep(&mut self, i: usize, dependency: ParsedDependency) -> (r: Result<(), DepsError>)
        requires
            find_dep(old(self)@.deps, dependency@.name, 0) == Some(i as int),
            i < old(self).snapshot.deps@.len(),
        ensures
            final(self).state == old(self).state,
            final(self)@.config == old(self)@.config,
            match merge(old(self)@.deps, old(self)@.config, dependency@) {
                Ok(d) => r is Ok && final(self)@.deps == d,
                Err(_) => r == Err::<(), DepsError>(DepsError::Comparison) && final(self)@.deps
                    == old(self)@.deps,
            },
    {
        let ghost before = self.snapshot.deps@;
        let mut j: usize = 0;
        let mut found: bool = false;
        let n = self.snapshot.deps[i].gradle_entries.len();
        while j < n && !found
            invariant
                found ==> j < n && before[i as int]@.entries[j as int].config == self@.config,
                self.snapshot.deps@ == before,
                i < before.len(),
                n == before[i as int].gradle_entries@.len(),
                j <= n,
                find_entry(before[i as int]@.entries, self@.config, 0) == find_entry(
                    before[i as int]@.entries,
                    self@.config,
                    j as int,
                ),
            decreases n - j + (if found {
                0int
            } else {
                1int
            }),
        {
            if same_text(
                self.snapshot.deps[i].gradle_entries[j].gradle_config_name.as_str(),
                self.curr_gradle_task.as_str(),
            ) {
                found = true;
            } else {
                j += 1;
            }
        }
        if found {
            assert(find_entry(before[i as int]@.entries, self@.config, j as int) == Some(j as int));
            let res = Self::update_existing(
                &mut self.snapshot.deps[i].gradle_entries[j],
                &dependency,
            );
            proof {
                if res is Ok {
                    assert(entries_view(self.snapshot.deps@[i as int].gradle_entries@) =~= entries_view(
                    before[i as int].gradle_entries@).update(j as int, self.snapshot.deps@[i as int].gradle_entries@[j as int]@));
                    assert(deps_view(self.snapshot.deps@) =~= deps_view(before).update(
                        i as int,
                        self.snapshot.deps@[i as int]@,
                    ));
                } else {
                    assert(entries_view(self.snapshot.deps@[i as int].gradle_entries@) =~= entries_view(
                    before[i as int].gradle_entries@));
                    assert(deps_view(self.snapshot.deps@) =~= deps_view(before));
                }
            }
            res
        } else {
            let mut transitive: Vec<Version> = Vec::new();
            transitive.push(dependency.transitive);
            let entry = GradleEntry {
                gradle_config_name: self.curr_gradle_task.clone(),
                versions: Versions { transitive, pinned: dependency.pinned },
            };
            let ghost ev = entry@;
            self.snapshot.deps[i].gradle_entries.push(entry);
            proof {
                assert(ev.transitive =~= seq![dependency@.transitive]);
                assert(entries_view(self.snapshot.deps@[i as int].gradle_entries@) =~= entries_view(
                before[i as int].gradle_entries@).push(ev));
                assert(deps_view(self.snapshot.deps@) =~= deps_view(before).update(
                    i as int,
                    self.snapshot.deps@[i as int]@,
                ));
            }
            Ok(())
        }
    }

    /// Applies the update policy to an existing entry; on failure nothing changes.
    fn update_existing(existing: &mut GradleEntry, new: &ParsedDependency) -> (r: Result<(), DepsError>)
        ensures
            match update_entry(old(existing)@, new@) {
                Ok(e) => r is Ok && final(existing)@ == e,
                Err(_) => r == Err::<(), DepsError>(DepsError::Comparison) && final(existing)@
                    == old(existing)@,
            },
    {
        if new.pinned.is_applicable() {
            if !existing.versions.pinned.is_applicable() {
                existing.versions.pinned = new.pinned.duplicate();
            } else {
                let a = new.pinned.to_string();
                let b = existing.versions.pinned.to_string();
                match compare_version_text(a.as_str(), b.as_str()) {
                    None => {
                        return Err(DepsError::Comparison);
                    },
                    Some(VersionOrder::Greater) => {
                        existing.versions.pinned = new.pinned.duplicate();
                    },
                    Some(_) => {},
                }
            }
        }
        if new.transitive.is_applicable() && !existing.versions.transitive_contains(&new.transitive) {
            let ghost prev = existing.versions.transitive@;
            existing.versions.transitive.push(new.transitive.duplicate());
            assert(versions_view(existing.versions.transitive@) =~= versions_view(prev).push(
                new.transitive@,
            ));
        }
        Ok(())
    }
}

pub open spec fn lines_view(lines: Seq<String>) -> Seq<Seq<char>> {
    lines.map_values(|l: String| l@)
}

/// The state a fresh parser starts from.
pub open spec fn initial_parser() -> ParserView {
    ParserView { state: ParserState::SeekingRoot, config: Seq::empty(), deps: Seq::empty() }
}

/// Feeds every line in order; a line after the terminator changes nothing.
pub open spec fn run(p: ParserView, lines: Seq<Seq<char>>) -> Result<ParserView, DepsError>
    decreases lines.len(),
{
    if lines.len() == 0 {
        Ok(p)
    } else {
        match step(p, lines[0]) {
            Err(e) => Err(e),
            Ok((q, _)) => run(q, lines.drop_first()),
        }
    }
}

pub proof fn lemma_run_after_end(p: ParserView, lines: Seq<Seq<char>>)
    requires
        p.state is End,
    ensures
        run(p, lines) == Ok::<ParserView, DepsError>(p),
    decreases lines.len(),
{
    if lines.len() > 0 {
        lemma_run_after_end(p, lines.drop_first());
    }
}

impl DependencyParser {
    /// Feeds the lines of one report in order, stopping at the terminator.
    pub fn parse_file(&mut self, lines: &Vec<String>) -> (r: Result<(), DepsError>)
        requires
            snapshot_wf(old(self)@.deps),
        ensures
            snapshot_wf(final(self)@.deps),
            match run(old(self)@, lines_view(lines@)) {
                Ok(p) => r is Ok && final(self)@ == p,
                Err(e) => r == Err::<(), DepsError>(e),
            },
    {
        let ghost all = lines_view(lines@);
        let ghost start = self@;
        let mut i: usize = 0;
        assert(all.subrange(0, all.len() as int) =~= all);
        while i < lines.len()
            invariant
                i <= lines@.len(),
                all == lines_view(lines@),
                start == old(self)@,
                snapshot_wf(self@.deps),
                run(start, all) == run(self@, all.subrange(i as int, all.len() as int)),
            decreases lines@.len() - i,
        {
            let ghost cur = self@;
            let line = lines[i].clone();
            let res = self.parse_line(line);
            proof {
                let rest = all.subrange(i as int, all.len() as int);
                assert(rest.drop_first() =~= all.subrange(i + 1, all.len() as int));
                assert(rest[0] == line@);
                assert(run(cur, rest) == match step(cur, rest[0]) {
                    Err(e) => Err(e),
                    Ok((q, _)) => run(q, rest.drop_first()),
                });
            }
            match res {
                Err(e) => {
                    return Err(e);
                },
                Ok(LineParseResult::End) => {
                    proof {
                        lemma_run_after_end(self@, all.subrange(i + 1, all.len() as int));
                    }
                    return Ok(());
                },
                Ok(_) => {},
            }
            i += 1;
        }
        assert(all.subrange(i as int, all.len() as int) =~= Seq::<Seq<char>>::empty());
        Ok(())
    }
}

/// Parses one complete report into its snapshot.
pub fn parse_snapshot(lines: &Vec<String>) -> (r: Result<Snapshot, DepsError>)
    ensures
        match run(initial_parser(), lines_view(lines@)) {
            Ok(p) => r matches Ok(s) && s@ == p.deps && snapshot_wf(s@),
            Err(e) => r == Err::<Snapshot, DepsError>(e),
        },
{
    let mut parser = DependencyParser::new();
    match parser.parse_file(lines) {
        Ok(()) => Ok(parser.snapshot),
        Err(e) => Err(e),
    }
}

pub proof fn lemma_find_dep_at(deps: Seq<DependencyView>, name: Seq<char>, from: int, i: int)
    requires
        0 <= from <= i < deps.len(),
        deps[i].name == name,
        forall|j: int| from <= j < i ==> deps[j].name != name,
    ensures
        find_dep(deps, name, from) == Some(i),
    decreases i - from,
{
    if from < i {
        lemma_find_dep_at(deps, name, from + 1, i);
    }
}

/// The pinned value of a (dependency, configuration) pair after two sightings
/// with applicable pinned readings: the second wins only if strictly greater.
pub open spec fn pinned_after_two(first: VersionView, second: VersionView) -> VersionView {
    if version_order(display(second), display(first)) == Some(VersionOrder::Greater) {
        second
    } else {
        first
    }
}

/// Merging a new dependency, then a repeat sighting under the same configuration,
/// leaves one entry whose pinned value is the greater of the two readings.
pub proof fn lemma_remerge_pinned(
    deps: Seq<DependencyView>,
    config: Seq<char>,
    o1: ParsedView,
    o2: ParsedView,
)
    requires
        find_dep(deps, o1.name, 0) is None,
        o2.name == o1.name,
        applicable(o1.pinned),
        applicable(o2.pinned),
    ensures
        merge(deps, config, o1) matches Ok(d1) && d1.len() == deps.len() + 1 && match merge(
            d1,
            config,
            o2,
        ) {
            Ok(d2) => d2.len() == d1.len() && d2.last().name == o1.name && d2.last().entries.len()
                == 1 && d2.last().entries[0].config == config && d2.last().entries[0].pinned
                == pinned_after_two(o1.pinned, o2.pinned),
            Err(_) => version_order(display(o2.pinned), display(o1.pinned)) is None,
        },
{
    lemma_find_dep(deps, o1.name, 0);
    let d1 = deps.push(
        DependencyView { name: o1.name, namespace: o1.namespace, entries: seq![new_entry(config, o1)] },
    );
    lemma_find_dep_at(d1, o1.name, 0, deps.len() as int);
    let es = d1[deps.len() as int].entries;
    assert(find_entry(es, config, 0) == Some(0int));
}

} // verus!
