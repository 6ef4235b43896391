use vstd::prelude::*;
use vstd::string::*;

verus! {

/// A version reading taken from one dependency line.
#[derive(Debug, Clone)]
pub enum Version {
    /// A version reached by automatic (transitive) resolution.
    Transitive(String),
    /// The version a resolver settled on after an override arrow.
    Pinned(String),
    /// No version could be determined.
    NotApplicable,
}

/// Mathematical model of a `Version`.
pub ghost enum VersionView {
    Transitive(Seq<char>),
    Pinned(Seq<char>),
    NotApplicable,
}

impl View for Version {
    type V = VersionView;

    open spec fn view(&self) -> VersionView {
        match self {
            Version::Transitive(s) => VersionView::Transitive(s@),
            Version::Pinned(s) => VersionView::Pinned(s@),
            Version::NotApplicable => VersionView::NotApplicable,
        }
    }
}

/// The text shown for an absent version.
pub open spec fn na_text() -> Seq<char> {
    seq!['N', '/', 'A']
}

/// A reading is applicable when it carries a version.
pub open spec fn applicable(v: VersionView) -> bool {
    !(v is NotApplicable)
}

/// The text a reading is displayed as.
pub open spec fn display(v: VersionView) -> Seq<char> {
    match v {
        VersionView::Transitive(s) => s,
        VersionView::Pinned(s) => s,
        VersionView::NotApplicable => na_text(),
    }
}

/// Outcome of comparing two version strings.
#[derive(Debug, Clone, Copy, PartialEq, Eq, Structural)]
pub enum VersionOrder {
    Less,
    Equal,
    Greater,
}

/// What `version_compare::compare` yields on two version strings: `None` when
/// either is not a valid version string, else how the first orders against the second.
pub uninterp spec fn version_order(a: Seq<char>, b: Seq<char>) -> Option<VersionOrder>;

/// Relies on `version_compare::compare`, which parses both strings and returns
/// `Err(())` when either is invalid and otherwise one of `Lt`, `Eq`, `Gt`; the
/// result depends on the two strings alone.
#[verifier::external_body]
pub(crate) fn compare_version_text(a: &str, b: &str) -> (r: Option<VersionOrder>)
    ensures
        r == version_order(a@, b@),
{
    match version_compare::compare(a, b) {
        Ok(version_compare::Cmp::Lt) => Some(VersionOrder::Less),
        Ok(version_compare::Cmp::Eq) => Some(VersionOrder::Equal),
        Ok(version_compare::Cmp::Gt) => Some(VersionOrder::Greater),
        Ok(_) => None,
        Err(()) => None,
    }
}

impl PartialEq for Version {
    fn eq(&self, other: &Version) -> (r: bool) {
        match (self, other) {
            (Version::Transitive(a), Version::Transitive(b)) => a.eq(b),
            (Version::Pinned(a), Version::Pinned(b)) => a.eq(b),
            (Version::NotApplicable, Version::NotApplicable) => true,
            _ => false,
        }
    }
}

impl vstd::std_specs::cmp::PartialEqSpecImpl for Version {
    open spec fn obeys_eq_spec() -> bool {
        true
    }

    open spec fn eq_spec(&self, other: &Version) -> bool {
        self@ == other@
    }
}

impl Version {
    /// True unless this is `NotApplicable`.
    pub fn is_applicable(&self) -> (r: bool)
        ensures
            r == applicable(self@),
    {
        match self {
            Version::NotApplicable => false,
            _ => true,
        }
    }

    /// The displayed text: the payload, or `"N/A"` for an absent version.
    pub fn to_string(&self) -> (r: String)
        ensures
            r@ == display(self@),
    {
        match self {
            Version::Transitive(s) => s.clone(),
            Version::Pinned(s) => s.clone(),
            Version::NotApplicable => {
                let r = String::from_str("N/A");
                proof {
                    reveal_strlit("N/A");
                }
                assert(r@ =~= na_text());
                r
            },
        }
    }

    /// A copy of this reading.
    pub fn duplicate(&self) -> (r: Version)
        ensures
            r@ == self@,
    {
        match self {
            Version::Transitive(s) => Version::Transitive(s.clone()),
            Version::Pinned(s) => Version::Pinned(s.clone()),
            Version::NotApplicable => Version::NotApplicable,
        }
    }
}

} // verus!
