//! The dependency tree as Maven's tree export describes it, and its
//! conversion into an artifact tree.

use vstd::prelude::*;

use crate::artifact::Artifact;
use crate::text::compare_str;

verus! {

broadcast use vstd::std_specs::vec::group_vec_axioms;

/// A node of Maven's dependency-tree export.
#[derive(Debug)]
pub struct Dependency {
    pub group_id: String,
    pub artifact_id: String,
    pub version: String,
    pub artifact_type: String,
    pub scope: String,
    pub classifier: String,
    pub optional: bool,
    pub children: Vec<Dependency>,
}

/// `a` is the artifact tree of `d`: the same coordinate and scope at every
/// node, the same children in the same order, and no latest version yet.
pub open spec fn converted(a: Artifact, d: Dependency) -> bool
    decreases d, 0int,
{
    &&& a.group_id@ == d.group_id@
    &&& a.artifact_id@ == d.artifact_id@
    &&& a.version@ == d.version@
    &&& a.scope@ == d.scope@
    &&& a.latest_version is None
    &&& a.children@.len() == d.children@.len()
    &&& all_converted(a.children@, d.children@, d.children@.len() as int)
}

/// Each of the first `n` artifacts of `a` is the artifact tree of the
/// dependency at the same position in `d`.
pub open spec fn all_converted(a: Seq<Artifact>, d: Seq<Dependency>, n: int) -> bool
    decreases d, n,
{
    if n <= 0 || n > d.len() || n > a.len() {
        n <= 0
    } else {
        all_converted(a, d, n - 1) && converted(a[n - 1], d[n - 1])
    }
}

proof fn lemma_all_converted(a: Seq<Artifact>, d: Seq<Dependency>, n: int)
    requires
        0 <= n <= a.len(),
        n <= d.len(),
        forall|j: int| 0 <= j < n ==> #[trigger] converted(a[j], d[j]),
    ensures
        all_converted(a, d, n),
    decreases n,
{
    if n > 0 {
        lemma_all_converted(a, d, n - 1);
        assert(converted(a[n - 1], d[n - 1]));
    }
}

/// The boolean that a `"true"` or `"false"` token of the export stands for.
pub open spec fn flag_of(s: Seq<char>) -> Option<bool> {
    if s == "true"@ {
        Some(true)
    } else if s == "false"@ {
        Some(false)
    } else {
        None
    }
}

/// Reads a boolean written as the token `true` or `false`; any other text is
/// rejected.
pub fn parse_flag(s: &str) -> (r: Option<bool>)
    ensures
        r == flag_of(s@),
{
    match compare_str(s, "true") {
        core::cmp::Ordering::Equal => Some(true),
        _ => match compare_str(s, "false") {
            core::cmp::Ordering::Equal => Some(false),
            _ => None,
        },
    }
}

impl Dependency {
    /// The artifact tree of this dependency tree.
    pub fn to_artifact(&self) -> (r: Artifact)
        ensures
            converted(r, *self),
        decreases self,
    {
        let mut children: Vec<Artifact> = Vec::new();
        let mut i: usize = 0;
        while i < self.children.len()
            invariant
                i <= self.children@.len(),
                children@.len() == i,
                forall|j: int| 0 <= j < i ==> #[trigger] converted(children@[j], self.children@[j]),
            decreases self.children@.len() - i,
        {
            assert(decreases_to!(self.children => self.children[i as int]));
            let c = self.children[i].to_artifact();
            children.push(c);
            i = i + 1;
        }
        let r = Artifact {
            group_id: self.group_id.clone(),
            artifact_id: self.artifact_id.clone(),
            version: self.version.clone(),
            scope: self.scope.clone(),
            children,
            latest_version: None,
        };
        proof {
            lemma_all_converted(children@, self.children@, i as int);
        }
        r
    }
}

/// Reads Maven's dependency-tree export.
#[derive(Debug)]
pub struct MavenTreeParser {}

impl MavenTreeParser {
    /// A parser of the export.
    pub fn new() -> (r: MavenTreeParser) {
        MavenTreeParser {}
    }

    /// The artifact tree of a decoded export.
    pub fn tree_of(&self, root: &Dependency) -> (r: Artifact)
        ensures
            converted(r, *root),
    {
        root.to_artifact()
    }
}

} // verus!
