use vstd::prelude::*;
use vstd::string::*;

use crate::decode::same_text;
use crate::dependency::{
    duplicate_entries, entries_view, ConfigVersionView, Dependency, DependencyView, DepsError,
    EntryView, GradleEntry, GradleList, ListView, ProcessedDependency, ProcessedDependencyObject, RecordView,
    TempList,
};
use crate::parser::{find_dep, lemma_find_dep, DependencyParser, Snapshot};
use crate::version::{
    applicable, compare_version_text, display, na_text, version_order, Version, VersionOrder,
    VersionView,
};

verus! {

/// The greatest applicable reading, folding left: the running maximum is kept
/// unless it orders below the next one. `Err` when two readings cannot be ordered.
pub open spec fn greatest(vs: Seq<VersionView>) -> Result<Option<Seq<char>>, ()>
    decreases vs.len(),
{
    if vs.len() == 0 {
        Ok(None)
    } else {
        let prev = greatest(vs.drop_last());
        match vs.last() {
            VersionView::NotApplicable => prev,
            VersionView::Transitive(t) => keep_greater(prev, t),
            VersionView::Pinned(t) => keep_greater(prev, t),
        }
    }
}

pub open spec fn keep_greater(prev: Result<Option<Seq<char>>, ()>, t: Seq<char>) -> Result<
    Option<Seq<char>>,
    (),
> {
    match prev {
        Err(_) => Err(()),
        Ok(None) => Ok(Some(t)),
        Ok(Some(a)) => match version_order(a, t) {
            None => Err(()),
            Some(VersionOrder::Less) => Ok(Some(t)),
            Some(_) => Ok(Some(a)),
        },
    }
}

pub proof fn lemma_greatest_err(vs: Seq<VersionView>, k: int)
    requires
        0 <= k <= vs.len(),
        greatest(vs.subrange(0, k)) is Err,
    ensures
        greatest(vs) is Err,
    decreases vs.len(),
{
    if k < vs.len() {
        assert(vs.drop_last().subrange(0, k) =~= vs.subrange(0, k));
        lemma_greatest_err(vs.drop_last(), k);
    } else {
        assert(vs.subrange(0, k) =~= vs);
    }
}

/// The effective version of an entry: its pinned value when applicable, else the
/// greatest transitive reading, else `"N/A"`; `None` when readings cannot be ordered.
pub open spec fn effective(e: EntryView) -> Option<Seq<char>> {
    if applicable(e.pinned) {
        Some(display(e.pinned))
    } else {
        match greatest(e.transitive) {
            Err(_) => None,
            Ok(Some(t)) => Some(t),
            Ok(None) => Some(na_text()),
        }
    }
}

pub open spec fn text_of(o: Option<Seq<char>>) -> Seq<char> {
    match o {
        Some(t) => t,
        None => Seq::empty(),
    }
}

/// The effective version of every entry, in entry order; `None` if any fails.
pub open spec fn effectives(entries: Seq<EntryView>) -> Option<Seq<ConfigVersionView>> {
    if forall|k: int| 0 <= k < entries.len() ==> (#[trigger] effective(entries[k])) is Some {
        Some(
            Seq::new(
                entries.len(),
                |k: int|
                    ConfigVersionView {
                        config: entries[k].config,
                        version: text_of(effective(entries[k])),
                    },
            ),
        )
    } else {
        None
    }
}

/// The version paired with the first item for configuration `c` at or after `from`, else `"N/A"`.
pub open spec fn lookup(ta: Seq<ConfigVersionView>, c: Seq<char>, from: int) -> Seq<char>
    decreases ta.len() - from,
{
    if from < 0 || from >= ta.len() {
        na_text()
    } else if ta[from].config == c {
        ta[from].version
    } else {
        lookup(ta, c, from + 1)
    }
}

pub open spec fn has_config(t: Seq<ConfigVersionView>, c: Seq<char>) -> bool {
    exists|k: int| 0 <= k < t.len() && t[k].config == c
}

/// Items of `ta` whose configuration `tb` lacks, with `"N/A"` before.
pub open spec fn after_only(tb: Seq<ConfigVersionView>, ta: Seq<ConfigVersionView>) -> Seq<ListView>
    decreases ta.len(),
{
    if ta.len() == 0 {
        Seq::empty()
    } else {
        let r = after_only(tb, ta.drop_last());
        if has_config(tb, ta.last().config) {
            r
        } else {
            r.push(ListView { config: ta.last().config, before: na_text(), after: ta.last().version })
        }
    }
}

/// Union of configurations: those of `tb` in order, each paired with its match
/// in `ta` or `"N/A"`, then those only in `ta`, paired with `"N/A"` before.
pub open spec fn join(tb: Seq<ConfigVersionView>, ta: Seq<ConfigVersionView>) -> Seq<ListView> {
    Seq::new(
        tb.len(),
        |k: int| ListView { config: tb[k].config, before: tb[k].version, after: lookup(ta, tb[k].config, 0) },
    ) + after_only(tb, ta)
}

pub open spec fn side_effectives(d: Option<DependencyView>) -> Option<Seq<ConfigVersionView>> {
    match d {
        Some(d) => effectives(d.entries),
        None => Some(Seq::empty()),
    }
}

/// The per-configuration before/after list of one dependency; `None` on a comparison failure.
pub open spec fn gradle_lists(before: Option<DependencyView>, after: Option<DependencyView>) -> Option<
    Seq<ListView>,
> {
    match (side_effectives(before), side_effectives(after)) {
        (Some(b), Some(a)) => Some(join(b, a)),
        _ => None,
    }
}

pub open spec fn any_changed(lists: Seq<ListView>) -> bool {
    exists|k: int| 0 <= k < lists.len() && lists[k].before != lists[k].after
}

pub open spec fn temps_view(t: Seq<TempList>) -> Seq<ConfigVersionView> {
    t.map_values(|x: TempList| x@)
}

pub open spec fn lists_view(t: Seq<GradleList>) -> Seq<ListView> {
    t.map_values(|x: GradleList| x@)
}

/// Picks the greatest applicable version of a list of readings.
pub fn get_greatest(arr: &[Version]) -> (r: Result<Option<String>, DepsError>)
    ensures
        match greatest(arr@.map_values(|v: Version| v@)) {
            Ok(Some(t)) => r matches Ok(Some(s)) && s@ == t,
            Ok(None) => r matches Ok(None),
            Err(_) => r == Err::<Option<String>, DepsError>(DepsError::Comparison),
        },
{
    let ghost vv = arr@.map_values(|v: Version| v@);
    let mut acc: Option<String> = None;
    let mut i: usize = 0;
    assert(vv.subrange(0, 0) =~= Seq::<VersionView>::empty());
    while i < arr.len()
        invariant
            i <= arr@.len(),
            vv == arr@.map_values(|v: Version| v@),
            match acc {
                Some(a) => greatest(vv.subrange(0, i as int)) == Ok::<Option<Seq<char>>, ()>(Some(a@)),
                None => greatest(vv.subrange(0, i as int)) == Ok::<Option<Seq<char>>, ()>(None),
            },
        decreases arr@.len() - i,
    {
        let ghost pre = vv.subrange(0, i as int);
        let ghost next = vv.subrange(0, i + 1);
        assert(next.drop_last() =~= pre);
        assert(next.last() == arr@[i as int]@);
        let t: Option<&String> = match &arr[i] {
            Version::NotApplicable => None,
            Version::Transitive(t) => Some(t),
            Version::Pinned(t) => Some(t),
        };
        match t {
            None => {},
            Some(t) => {
                match acc {
                    None => {
                        acc = Some(t.clone());
                    },
                    Some(a) => {
                        match compare_version_text(a.as_str(), t.as_str()) {
                            None => {
                                proof {
                                    lemma_greatest_err(vv, i + 1);
                                }
                                return Err(DepsError::Comparison);
                            },
                            Some(VersionOrder::Less) => {
                                acc = Some(t.clone());
                            },
                            Some(_) => {
                                acc = Some(a);
                            },
                        }
                    },
                }
            },
        }
        i += 1;
    }
    assert(vv.subrange(0, i as int) =~= vv);
    Ok(acc)
}

/// The effective version of each configuration entry of a dependency.
pub fn get_versions(element: &Dependency) -> (r: Result<Vec<TempList>, DepsError>)
    ensures
        match effectives(element@.entries) {
            Some(t) => r matches Ok(v) && temps_view(v@) == t,
            None => r == Err::<Vec<TempList>, DepsError>(DepsError::Comparison),
        },
{
    let ghost entries = element@.entries;
    let mut out: Vec<TempList> = Vec::new();
    let mut i: usize = 0;
    while i < element.gradle_entries.len()
        invariant
            i <= element.gradle_entries@.len(),
            entries == element@.entries,
            out@.len() == i,
            forall|k: int| 0 <= k < i ==> (#[trigger] effective(entries[k])) is Some,
            forall|k: int|
                0 <= k < i ==> (#[trigger] out@[k])@ == (ConfigVersionView {
                    config: entries[k].config,
                    version: text_of(effective(entries[k])),
                }),
        decreases element.gradle_entries@.len() - i,
    {
        let entry = &element.gradle_entries[i];
        assert(entries[i as int] == entry@);
        let version: String = if entry.versions.pinned.is_applicable() {
            entry.versions.pinned.to_string()
        } else {
            match get_greatest(entry.versions.transitive.as_slice()) {
                Err(e) => {
                    assert(effective(entries[i as int]) is None);
                    return Err(e);
                },
                Ok(Some(v)) => v,
                Ok(None) => {
                    let na = String::from_str("N/A");
                    proof {
                        reveal_strlit("N/A");
                    }
                    assert(na@ =~= na_text());
                    na
                },
            }
        };
        out.push(TempList { gradle_config_name: entry.gradle_config_name.clone(), version });
        i += 1;
    }
    assert(temps_view(out@) =~= Seq::new(
        entries.len(),
        |k: int| ConfigVersionView { config: entries[k].config, version: text_of(effective(entries[k])) },
    ));
    Ok(out)
}

pub open spec fn dep_opt_view(d: Option<&Dependency>) -> Option<DependencyView> {
    match d {
        Some(d) => Some(d@),
        None => None,
    }
}

fn has_config_exec(t: &Vec<TempList>, c: &str) -> (r: bool)
    ensures
        r == has_config(temps_view(t@), c@),
{
    let mut i: usize = 0;
    while i < t.len()
        invariant
            i <= t@.len(),
            forall|k: int| 0 <= k < i ==> t@[k].gradle_config_name@ != c@,
        decreases t@.len() - i,
    {
        if same_text(t[i].gradle_config_name.as_str(), c) {
            assert(temps_view(t@)[i as int].config == c@);
            return true;
        }
        i += 1;
    }
    proof {
        if has_config(temps_view(t@), c@) {
            let k = choose|k: int| 0 <= k < temps_view(t@).len() && temps_view(t@)[k].config == c@;
            assert(t@[k].gradle_config_name@ == c@);
        }
    }
    false
}

fn lookup_exec(t: &Vec<TempList>, c: &str) -> (r: String)
    ensures
        r@ == lookup(temps_view(t@), c@, 0),
{
    let mut i: usize = 0;
    while i < t.len()
        invariant
            i <= t@.len(),
            lookup(temps_view(t@), c@, 0) == lookup(temps_view(t@), c@, i as int),
        decreases t@.len() - i,
    {
        if same_text(t[i].gradle_config_name.as_str(), c) {
            return t[i].version.clone();
        }
        i += 1;
    }
    let na = String::from_str("N/A");
    proof {
        reveal_strlit("N/A");
    }
    assert(na@ =~= na_text());
    na
}

/// Pairs the effective versions of a dependency before and after, per configuration.
pub fn create_gradle_lists(before: Option<&Dependency>, after: Option<&Dependency>) -> (r: Result<
    Vec<GradleList>,
    DepsError,
>)
    ensures
        match gradle_lists(dep_opt_view(before), dep_opt_view(after)) {
            Some(l) => r matches Ok(v) && lists_view(v@) == l,
            None => r == Err::<Vec<GradleList>, DepsError>(DepsError::Comparison),
        },
{
    let tb: Vec<TempList> = match before {
        Some(d) => match get_versions(d) {
            Ok(v) => v,
            Err(e) => {
                return Err(e);
            },
        },
        None => Vec::new(),
    };
    let ta: Vec<TempList> = match after {
        Some(d) => match get_versions(d) {
            Ok(v) => v,
            Err(e) => {
                return Err(e);
            },
        },
        None => Vec::new(),
    };
    let ghost bv = temps_view(tb@);
    let ghost av = temps_view(ta@);
    assert(side_effectives(dep_opt_view(before)) == Some(bv)) by {
        if before is None {
            assert(bv =~= Seq::<ConfigVersionView>::empty());
        }
    }
    assert(side_effectives(dep_opt_view(after)) == Some(av)) by {
        if after is None {
            assert(av =~= Seq::<ConfigVersionView>::empty());
        }
    }
    let mut res: Vec<GradleList> = Vec::new();
    let mut k: usize = 0;
    while k < tb.len()
        invariant
            k <= tb@.len(),
            bv == temps_view(tb@),
            av == temps_view(ta@),
            res@.len() == k,
            forall|m: int|
                0 <= m < k ==> (#[trigger] res@[m])@ == (ListView {
                    config: bv[m].config,
                    before: bv[m].version,
                    after: lookup(av, bv[m].config, 0),
                }),
        decreases tb@.len() - k,
    {
        let after_version = lookup_exec(&ta, tb[k].gradle_config_name.as_str());
        res.push(
            GradleList {
                gradle_config_name: tb[k].gradle_config_name.clone(),
                version_before: tb[k].version.clone(),
                version_after: after_version,
            },
        );
        k += 1;
    }
    let ghost first = lists_view(res@);
    assert(first =~= Seq::new(
        bv.len(),
        |m: int| ListView { config: bv[m].config, before: bv[m].version, after: lookup(av, bv[m].config, 0) },
    ));
    let mut m: usize = 0;
    assert(av.subrange(0, 0) =~= Seq::<ConfigVersionView>::empty());
    assert(first + after_only(bv, av.subrange(0, 0)) =~= first);
    while m < ta.len()
        invariant
            m <= ta@.len(),
            bv == temps_view(tb@),
            av == temps_view(ta@),
            lists_view(res@) == first + after_only(bv, av.subrange(0, m as int)),
        decreases ta@.len() - m,
    {
        assert(av.subrange(0, m + 1).drop_last() =~= av.subrange(0, m as int));
        assert(av.subrange(0, m + 1).last() == ta@[m as int]@);
        let ghost prev = res@;
        if !has_config_exec(&tb, ta[m].gradle_config_name.as_str()) {
            let na = String::from_str("N/A");
            proof {
                reveal_strlit("N/A");
            }
            assert(na@ =~= na_text());
            res.push(
                GradleList {
                    gradle_config_name: ta[m].gradle_config_name.clone(),
                    version_before: na,
                    version_after: ta[m].version.clone(),
                },
            );
            assert(lists_view(res@) =~= lists_view(prev).push(res@[res@.len() - 1]@));
        }
        assert(lists_view(res@) =~= first + after_only(bv, av.subrange(0, m + 1)));
        m += 1;
    }
    assert(av.subrange(0, m as int) =~= av);
    Ok(res)
}

/// Whether any configuration's version differs before and after.
fn lists_changed(lists: &Vec<GradleList>) -> (r: bool)
    ensures
        r == any_changed(lists_view(lists@)),
{
    let mut i: usize = 0;
    while i < lists.len()
        invariant
            i <= lists@.len(),
            forall|k: int| 0 <= k < i ==> lists@[k].version_before@ == lists@[k].version_after@,
        decreases lists@.len() - i,
    {
        if !lists[i].version_before.eq(&lists[i].version_after) {
            assert(lists_view(lists@)[i as int].before != lists_view(lists@)[i as int].after);
            return true;
        }
        i += 1;
    }
    proof {
        if any_changed(lists_view(lists@)) {
            let k = choose|k: int|
                0 <= k < lists_view(lists@).len() && lists_view(lists@)[k].before != lists_view(
                    lists@,
                )[k].after;
            assert(lists@[k].version_before@ == lists@[k].version_after@);
        }
    }
    false
}

/// The dependency a record is keyed by: the before side when present.
pub open spec fn key_of(before: Option<DependencyView>, after: Option<DependencyView>) -> DependencyView {
    match before {
        Some(d) => d,
        None => match after {
            Some(d) => d,
            None => DependencyView { name: Seq::empty(), namespace: Seq::empty(), entries: Seq::empty() },
        },
    }
}

pub open spec fn entries_of(d: Option<DependencyView>) -> Seq<EntryView> {
    match d {
        Some(d) => d.entries,
        None => Seq::empty(),
    }
}

/// The diff record of one dependency; `None` on a comparison failure.
pub open spec fn record(before: Option<DependencyView>, after: Option<DependencyView>) -> Option<RecordView> {
    match gradle_lists(before, after) {
        None => None,
        Some(l) => Some(
            RecordView {
                name: key_of(before, after).name,
                namespace: key_of(before, after).namespace,
                entries_before: entries_of(before),
                entries_after: entries_of(after),
                lists: l,
                changed: any_changed(l),
            },
        ),
    }
}

fn make_record(before: Option<&Dependency>, after: Option<&Dependency>) -> (r: Result<
    ProcessedDependencyObject,
    DepsError,
>)
    requires
        before is Some || after is Some,
    ensures
        match record(dep_opt_view(before), dep_opt_view(after)) {
            Some(v) => r matches Ok(o) && o@ == v,
            None => r == Err::<ProcessedDependencyObject, DepsError>(DepsError::Comparison),
        },
{
    let lists = match create_gradle_lists(before, after) {
        Ok(l) => l,
        Err(e) => {
            return Err(e);
        },
    };
    let changed = lists_changed(&lists);
    let key: &Dependency = match before {
        Some(d) => d,
        None => after.unwrap(),
    };
    let entries_before: Vec<GradleEntry> = match before {
        Some(d) => duplicate_entries(&d.gradle_entries),
        None => Vec::new(),
    };
    let entries_after: Vec<GradleEntry> = match after {
        Some(d) => duplicate_entries(&d.gradle_entries),
        None => Vec::new(),
    };
    assert(entries_view(entries_before@) =~= entries_of(dep_opt_view(before)));
    assert(entries_view(entries_after@) =~= entries_of(dep_opt_view(after)));
    let r = ProcessedDependencyObject {
        dependency: ProcessedDependency {
            name: key.name.clone(),
            namespace: key.namespace.clone(),
            gradle_entries_before: entries_before,
            gradle_entries_after: entries_after,
        },
        changed,
        gradle_versions: lists,
    };
    Ok(r)
}

/// The dependency of `deps` named `name`, if any.
pub open spec fn dep_named(deps: Seq<DependencyView>, name: Seq<char>) -> Option<DependencyView> {
    match find_dep(deps, name, 0) {
        Some(i) => Some(deps[i]),
        None => None,
    }
}

/// The dependencies of `b`, in order, whose name `a` lacks.
pub open spec fn only_in_second(a: Seq<DependencyView>, b: Seq<DependencyView>) -> Seq<DependencyView>
    decreases b.len(),
{
    if b.len() == 0 {
        Seq::empty()
    } else {
        let r = only_in_second(a, b.drop_last());
        if find_dep(a, b.last().name, 0) is None {
            r.push(b.last())
        } else {
            r
        }
    }
}

/// One record per dependency of `a`, in order, then one per dependency only in `b`.
pub open spec fn record_options(a: Seq<DependencyView>, b: Seq<DependencyView>) -> Seq<Option<RecordView>> {
    Seq::new(a.len(), |i: int| record(Some(a[i]), dep_named(b, a[i].name))) + only_in_second(
        a,
        b,
    ).map_values(|d: DependencyView| record(None, Some(d)))
}

pub open spec fn some_record(o: Option<RecordView>) -> RecordView {
    match o {
        Some(r) => r,
        None => arbitrary(),
    }
}

/// The diff of two snapshots; `None` on a comparison failure.
pub open spec fn diff(a: Seq<DependencyView>, b: Seq<DependencyView>) -> Option<Seq<RecordView>> {
    let r = record_options(a, b);
    if forall|k: int| 0 <= k < r.len() ==> (#[trigger] r[k]) is Some {
        Some(r.map_values(|o: Option<RecordView>| some_record(o)))
    } else {
        None
    }
}

pub proof fn lemma_only_in_second_prefix(a: Seq<DependencyView>, b: Seq<DependencyView>, j: int)
    requires
        0 <= j <= b.len(),
    ensures
        only_in_second(a, b.subrange(0, j)).len() <= only_in_second(a, b).len(),
        forall|k: int|
            0 <= k < only_in_second(a, b.subrange(0, j)).len() ==> only_in_second(a, b)[k]
                == only_in_second(a, b.subrange(0, j))[k],
    decreases b.len(),
{
    if j == b.len() {
        assert(b.subrange(0, j) =~= b);
    } else {
        assert(b.drop_last().subrange(0, j) =~= b.subrange(0, j));
        lemma_only_in_second_prefix(a, b.drop_last(), j);
    }
}

pub open spec fn records_view(v: Seq<ProcessedDependencyObject>) -> Seq<RecordView> {
    v.map_values(|o: ProcessedDependencyObject| o@)
}

/// Diffs two snapshots: every dependency of `a` in order, then those only in `b`.
pub fn diff_snapshots(a: &Snapshot, b: &Snapshot) -> (r: Result<Vec<ProcessedDependencyObject>, DepsError>)
    ensures
        match diff(a@, b@) {
            Some(v) => r matches Ok(out) && records_view(out@) == v,
            None => r == Err::<Vec<ProcessedDependencyObject>, DepsError>(DepsError::Comparison),
        },
{
    let ghost opts = record_options(a@, b@);
    let ghost n: int = a@.len() as int;
    let mut out: Vec<ProcessedDependencyObject> = Vec::new();
    let mut i: usize = 0;
    while i < a.deps.len()
        invariant
            i <= a.deps@.len(),
            n == a@.len(),
            opts == record_options(a@, b@),
            out@.len() == i,
            forall|k: int| 0 <= k < i ==> opts[k] == Some((#[trigger] out@[k])@),
        decreases a.deps@.len() - i,
    {
        let bd = b.get(a.deps[i].name.as_str());
        proof {
            assert(a@[i as int].name == a.deps@[i as int].name@);
            lemma_find_dep(b@, a@[i as int].name, 0);
            match find_dep(b@, a@[i as int].name, 0) {
                Some(k) => {
                    assert(b@[k] == b.deps@[k]@);
                },
                None => {},
            }
        }
        assert(dep_opt_view(bd) == dep_named(b@, a@[i as int].name));
        assert(opts[i as int] == record(Some(a@[i as int]), dep_named(b@, a@[i as int].name)));
        match make_record(Some(&a.deps[i]), bd) {
            Err(e) => {
                return Err(e);
            },
            Ok(rec) => {
                out.push(rec);
            },
        }
        i += 1;
    }
    let mut j: usize = 0;
    assert(b@.subrange(0, 0) =~= Seq::<DependencyView>::empty());
    while j < b.deps.len()
        invariant
            j <= b.deps@.len(),
            n == a@.len(),
            opts == record_options(a@, b@),
            out@.len() == n + only_in_second(a@, b@.subrange(0, j as int)).len(),
            forall|k: int| 0 <= k < n ==> opts[k] == Some((#[trigger] out@[k])@),
            forall|k: int|
                0 <= k < only_in_second(a@, b@.subrange(0, j as int)).len() ==> record(
                    None,
                    Some(only_in_second(a@, b@.subrange(0, j as int))[k]),
                ) == Some((#[trigger] out@[n + k])@),
        decreases b.deps@.len() - j,
    {
        let ghost pre = only_in_second(a@, b@.subrange(0, j as int));
        assert(b@.subrange(0, j + 1).drop_last() =~= b@.subrange(0, j as int));
        proof {
            lemma_only_in_second_prefix(a@, b@, j + 1);
        }
        if a.position(b.deps[j].name.as_str()).is_none() {
            let ghost next = only_in_second(a@, b@.subrange(0, j + 1));
            assert(next == pre.push(b@[j as int]));
            assert(opts[n + pre.len() as int] == record(None, Some(b@[j as int])));
            match make_record(None, Some(&b.deps[j])) {
                Err(e) => {
                    return Err(e);
                },
                Ok(rec) => {
                    out.push(rec);
                },
            }
        }
        j += 1;
    }
    proof {
        let ob = only_in_second(a@, b@);
        assert(b@.subrange(0, j as int) =~= b@);
        assert(opts.len() == n + ob.len());
        assert forall|k: int| 0 <= k < opts.len() implies opts[k] == Some(out@[k]@) by {
            if k >= n {
                assert(opts[k] == record(None, Some(ob[k - n])));
                assert(out@[n + (k - n)] == out@[k]);
            }
        }
        assert(records_view(out@) =~= opts.map_values(|o: Option<RecordView>| some_record(o)));
    }
    Ok(out)
}

impl DependencyParser {
    /// Diffs this parser's snapshot (before) against `after`'s.
    pub fn compare_versions(&self, after: &DependencyParser) -> (r: Result<
        Vec<ProcessedDependencyObject>,
        DepsError,
    >)
        ensures
            match diff(self@.deps, after@.deps) {
                Some(v) => r matches Ok(out) && records_view(out@) == v,
                None => r == Err::<Vec<ProcessedDependencyObject>, DepsError>(DepsError::Comparison),
            },
    {
        diff_snapshots(&self.snapshot, &after.snapshot)
    }
}

pub proof fn lemma_after_only_empty(ta: Seq<ConfigVersionView>)
    ensures
        after_only(Seq::empty(), ta).len() == ta.len(),
        forall|k: int|
            0 <= k < ta.len() ==> #[trigger] after_only(Seq::empty(), ta)[k] == (ListView {
                config: ta[k].config,
                before: na_text(),
                after: ta[k].version,
            }),
    decreases ta.len(),
{
    if ta.len() > 0 {
        lemma_after_only_empty(ta.drop_last());
        assert(!has_config(Seq::empty(), ta.last().config));
    }
}

/// With only a before side, the list holds each configuration of it, in order,
/// with `"N/A"` after; with only an after side, likewise with `"N/A"` before.
pub proof fn lemma_one_sided(d: DependencyView)
    ensures
        gradle_lists(Some(d), None) matches Some(l) ==> l.len() == d.entries.len() && forall|k: int|
            0 <= k < l.len() ==> l[k].config == d.entries[k].config && l[k].after == na_text(),
        gradle_lists(None, Some(d)) matches Some(l) ==> l.len() == d.entries.len() && forall|k: int|
            0 <= k < l.len() ==> l[k].config == d.entries[k].config && l[k].before == na_text(),
{
    if let Some(t) = effectives(d.entries) {
        let e = Seq::<ConfigVersionView>::empty();
        assert(after_only(t, e) =~= Seq::<ListView>::empty());
        lemma_after_only_empty(t);
        assert(join(e, t) =~= after_only(e, t));
    }
}

pub proof fn lemma_lookup_missing(ta: Seq<ConfigVersionView>, c: Seq<char>, from: int)
    requires
        0 <= from,
        !has_config(ta, c),
    ensures
        lookup(ta, c, from) == na_text(),
    decreases ta.len() - from,
{
    if from < ta.len() {
        assert(ta[from].config != c);
        lemma_lookup_missing(ta, c, from + 1);
    }
}

pub proof fn lemma_after_only_items(tb: Seq<ConfigVersionView>, ta: Seq<ConfigVersionView>)
    ensures
        forall|k: int|
            0 <= k < after_only(tb, ta).len() ==> {
                let l = #[trigger] after_only(tb, ta)[k];
                &&& !has_config(tb, l.config)
                &&& has_config(ta, l.config)
                &&& l.before == na_text()
            },
        forall|m: int|
            0 <= m < ta.len() && !has_config(tb, #[trigger] ta[m].config) ==> exists|k: int|
                0 <= k < after_only(tb, ta).len() && after_only(tb, ta)[k].config == ta[m].config,
    decreases ta.len(),
{
    if ta.len() > 0 {
        let pre = ta.drop_last();
        lemma_after_only_items(tb, pre);
        let r = after_only(tb, pre);
        assert forall|k: int| 0 <= k < r.len() implies has_config(ta, #[trigger] r[k].config) by {
            let j = choose|j: int| 0 <= j < pre.len() && pre[j].config == r[k].config;
            assert(ta[j] == pre[j]);
        }
        if !has_config(tb, ta.last().config) {
            assert(has_config(ta, ta.last().config)) by {
                assert(ta[ta.len() - 1].config == ta.last().config);
            }
        }
        assert forall|m: int| 0 <= m < ta.len() && !has_config(tb, #[trigger] ta[m].config) implies exists|k: int|
            0 <= k < after_only(tb, ta).len() && after_only(tb, ta)[k].config == ta[m].config by {
            if m < ta.len() - 1 {
                assert(pre[m] == ta[m]);
                let k = choose|k: int| 0 <= k < r.len() && r[k].config == pre[m].config;
                assert(after_only(tb, ta)[k] == r[k]);
            } else {
                assert(after_only(tb, ta)[r.len() as int].config == ta[m].config);
            }
        }
    }
}

/// The joined list covers the union of configurations: those before come first,
/// in order, with their before version and `"N/A"` after when the after side lacks
/// them; every configuration of the after side appears; and the items past those
/// of the before side are configurations only the after side has, with `"N/A"` before.
pub proof fn lemma_join_union(tb: Seq<ConfigVersionView>, ta: Seq<ConfigVersionView>)
    ensures
        join(tb, ta).len() >= tb.len(),
        forall|k: int|
            0 <= k < tb.len() ==> {
                let l = #[trigger] join(tb, ta)[k];
                &&& l.config == tb[k].config
                &&& l.before == tb[k].version
                &&& !has_config(ta, tb[k].config) ==> l.after == na_text()
            },
        forall|k: int|
            tb.len() <= k < join(tb, ta).len() ==> {
                let l = #[trigger] join(tb, ta)[k];
                &&& !has_config(tb, l.config)
                &&& has_config(ta, l.config)
                &&& l.before == na_text()
            },
        forall|m: int|
            0 <= m < ta.len() ==> exists|k: int|
                0 <= k < join(tb, ta).len() && join(tb, ta)[k].config == (#[trigger] ta[m]).config,
{
    let j = join(tb, ta);
    let r = after_only(tb, ta);
    lemma_after_only_items(tb, ta);
    assert forall|k: int| 0 <= k < tb.len() implies {
        let l = #[trigger] join(tb, ta)[k];
        &&& l.config == tb[k].config
        &&& l.before == tb[k].version
        &&& !has_config(ta, tb[k].config) ==> l.after == na_text()
    } by {
        if !has_config(ta, tb[k].config) {
            lemma_lookup_missing(ta, tb[k].config, 0);
        }
    }
    assert forall|k: int| tb.len() <= k < j.len() implies {
        let l = #[trigger] join(tb, ta)[k];
        &&& !has_config(tb, l.config)
        &&& has_config(ta, l.config)
        &&& l.before == na_text()
    } by {
        assert(j[k] == r[k - tb.len()]);
    }
    assert forall|m: int| 0 <= m < ta.len() implies exists|k: int|
        0 <= k < j.len() && j[k].config == (#[trigger] ta[m]).config by {
        if has_config(tb, ta[m].config) {
            let k = choose|k: int| 0 <= k < tb.len() && tb[k].config == ta[m].config;
            assert(j[k].config == ta[m].config);
        } else {
            let k = choose|k: int| 0 <= k < r.len() && r[k].config == ta[m].config;
            assert(j[tb.len() + k] == r[k]);
        }
    }
}

} // verus!
