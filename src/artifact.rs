//! The artifact tree: identity, order, namespace membership and scope.

use vstd::prelude::*;
use vstd::string::*;

use crate::text::{
    compare_str, lemma_str_lt_asymmetric, lemma_str_lt_irreflexive, lemma_str_lt_total,
    lemma_str_lt_transitive, str_lt,
};

verus! {

/// A node of a dependency tree.
///
/// Two artifacts are the same artifact when their group, artifact identifier
/// and version agree; scope, children and the latest known version play no
/// part in identity or order.
pub struct Artifact {
    pub group_id: String,
    pub artifact_id: String,
    pub version: String,
    pub scope: String,
    pub children: Vec<Artifact>,
    pub latest_version: Option<String>,
}

/// The coordinate of an artifact: its (group, artifact, version) triple.
pub open spec fn coord(a: Artifact) -> (Seq<char>, Seq<char>, Seq<char>) {
    (a.group_id@, a.artifact_id@, a.version@)
}

/// Lexicographic order on coordinates.
pub open spec fn coord_lt(a: (Seq<char>, Seq<char>, Seq<char>), b: (Seq<char>, Seq<char>, Seq<char>)) -> bool {
    str_lt(a.0, b.0) || (a.0 == b.0 && str_lt(a.1, b.1)) || (a.0 == b.0 && a.1 == b.1 && str_lt(a.2, b.2))
}

/// The order of two artifacts by coordinate.
pub open spec fn coord_order(a: Artifact, b: Artifact) -> core::cmp::Ordering {
    if coord_lt(coord(a), coord(b)) {
        core::cmp::Ordering::Less
    } else if coord(a) == coord(b) {
        core::cmp::Ordering::Equal
    } else {
        core::cmp::Ordering::Greater
    }
}

/// `group` is `ns` itself or lies below it, past a `.` separator.
pub open spec fn in_namespace(group: Seq<char>, ns: Seq<char>) -> bool {
    group == ns || (group.len() > ns.len() && group.subrange(0, ns.len() as int) == ns
        && group[ns.len() as int] == '.')
}

/// The scopes whose dependencies are present at run time.
pub open spec fn runtime_scope(scope: Seq<char>) -> bool {
    scope == "compile"@ || scope == "runtime"@
}

/// The order on coordinates is a strict total order.
pub proof fn lemma_coord_lt_strict_total(
    a: (Seq<char>, Seq<char>, Seq<char>),
    b: (Seq<char>, Seq<char>, Seq<char>),
)
    ensures
        !coord_lt(a, a),
        !(coord_lt(a, b) && coord_lt(b, a)),
        coord_lt(a, b) || coord_lt(b, a) || a == b,
{
    lemma_str_lt_irreflexive(a.0);
    lemma_str_lt_irreflexive(a.1);
    lemma_str_lt_irreflexive(a.2);
    lemma_str_lt_asymmetric(a.0, b.0);
    lemma_str_lt_asymmetric(a.1, b.1);
    lemma_str_lt_asymmetric(a.2, b.2);
    lemma_str_lt_irreflexive(b.0);
    lemma_str_lt_irreflexive(b.1);
    lemma_str_lt_total(a.0, b.0);
    lemma_str_lt_total(a.1, b.1);
    lemma_str_lt_total(a.2, b.2);
}

/// The order on coordinates is transitive.
pub proof fn lemma_coord_lt_transitive(
    a: (Seq<char>, Seq<char>, Seq<char>),
    b: (Seq<char>, Seq<char>, Seq<char>),
    c: (Seq<char>, Seq<char>, Seq<char>),
)
    requires
        coord_lt(a, b),
        coord_lt(b, c),
    ensures
        coord_lt(a, c),
{
    if str_lt(a.0, b.0) && str_lt(b.0, c.0) {
        lemma_str_lt_transitive(a.0, b.0, c.0);
    }
    if a.0 == b.0 && b.0 == c.0 && str_lt(a.1, b.1) && str_lt(b.1, c.1) {
        lemma_str_lt_transitive(a.1, b.1, c.1);
    }
    if a.0 == b.0 && b.0 == c.0 && a.1 == b.1 && b.1 == c.1 && str_lt(a.2, b.2) && str_lt(b.2, c.2) {
        lemma_str_lt_transitive(a.2, b.2, c.2);
    }
}

fn is_equal(o: core::cmp::Ordering) -> (r: bool)
    ensures
        r == (o == core::cmp::Ordering::Equal),
{
    match o {
        core::cmp::Ordering::Equal => true,
        _ => false,
    }
}

impl Artifact {
    /// Compares two artifacts by group, then artifact identifier, then version.
    pub fn compare(&self, other: &Artifact) -> (r: core::cmp::Ordering)
        ensures
            r == coord_order(*self, *other),
    {
        proof {
            lemma_coord_lt_strict_total(coord(*self), coord(*other));
        }
        let g = compare_str(self.group_id.as_str(), other.group_id.as_str());
        if !is_equal(g) {
            return g;
        }
        let a = compare_str(self.artifact_id.as_str(), other.artifact_id.as_str());
        if !is_equal(a) {
            return a;
        }
        compare_str(self.version.as_str(), other.version.as_str())
    }

    /// Whether this artifact has the same coordinate as `other`.
    pub fn same_coord(&self, other: &Artifact) -> (r: bool)
        ensures
            r == (coord(*self) == coord(*other)),
    {
        self.group_id == other.group_id && self.artifact_id == other.artifact_id
            && self.version == other.version
    }

    /// Whether the group of this artifact is `group` or lies below it in the
    /// dot-separated namespace (`com.acme.core` belongs to `com.acme`,
    /// `com.acmex` does not).
    pub fn belongs_to(&self, group: &str) -> (r: bool)
        ensures
            r == in_namespace(self.group_id@, group@),
    {
        let g = self.group_id.as_str();
        let lg = g.unicode_len();
        let ln = group.unicode_len();
        if lg < ln {
            return false;
        }
        let mut i: usize = 0;
        while i < ln
            invariant
                lg == g@.len(),
                ln == group@.len(),
                ln <= lg,
                i <= ln,
                g@ == self.group_id@,
                g@.subrange(0, i as int) == group@.subrange(0, i as int),
            decreases ln - i,
        {
            let c = g.get_char(i);
            if c != group.get_char(i) {
                assert(g@.subrange(0, ln as int)[i as int] != group@[i as int]);
                assert(g@ != group@);
                return false;
            }
            assert(g@.subrange(0, i + 1) =~= g@.subrange(0, i as int).push(c));
            assert(group@.subrange(0, i + 1) =~= group@.subrange(0, i as int).push(c));
            i = i + 1;
        }
        assert(group@.subrange(0, ln as int) =~= group@);
        if lg == ln {
            assert(g@ =~= g@.subrange(0, ln as int));
            true
        } else {
            g.get_char(ln) == '.'
        }
    }

    /// Whether the scope is one whose dependencies are needed at run time
    /// (`compile` or `runtime`).
    pub fn is_runtime(&self) -> (r: bool)
        ensures
            r == runtime_scope(self.scope@),
    {
        is_equal(compare_str(self.scope.as_str(), "compile")) || is_equal(
            compare_str(self.scope.as_str(), "runtime"),
        )
    }
}

impl PartialEq for Artifact {
    fn eq(&self, other: &Artifact) -> (r: bool) {
        self.same_coord(other)
    }
}

impl vstd::std_specs::cmp::PartialEqSpecImpl for Artifact {
    open spec fn obeys_eq_spec() -> bool {
        true
    }

    open spec fn eq_spec(&self, other: &Artifact) -> bool {
        coord(*self) == coord(*other)
    }
}

impl Eq for Artifact {

}

/// Relies on std's `Hash` for `String`, which feeds the string's bytes to the
/// hasher; nothing is claimed of the hasher's state afterwards.
pub assume_specification<H: core::hash::Hasher>[ <String as core::hash::Hash>::hash ](
    s: &String,
    state: &mut H,
);

/// Hashes the coordinate alone, so that equal artifacts hash alike.
impl core::hash::Hash for Artifact {
    fn hash<H: core::hash::Hasher>(&self, state: &mut H) {
        self.group_id.hash(state);
        self.artifact_id.hash(state);
        self.version.hash(state);
    }
}

impl PartialOrd for Artifact {
    fn partial_cmp(&self, other: &Artifact) -> (r: Option<core::cmp::Ordering>) {
        Some(self.compare(other))
    }
}

impl vstd::std_specs::cmp::PartialOrdSpecImpl for Artifact {
    open spec fn obeys_partial_cmp_spec() -> bool {
        true
    }

    open spec fn partial_cmp_spec(&self, other: &Artifact) -> Option<core::cmp::Ordering> {
        Some(coord_order(*self, *other))
    }
}

} // verus!
