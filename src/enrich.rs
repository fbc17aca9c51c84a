//! The decisions of the registry lookup that adds to each artifact the latest
//! published version of its group and artifact identifier.
//!
//! The lookups run one at a time, in the order of the list, with a pause
//! before each one but the first. [`Enrichment`] holds what was learnt so far
//! and names the next step; the caller performs it (pause or request) and
//! reports back. The artifacts are changed only once every lookup has
//! succeeded: a caller that stops on a failed request leaves them as they
//! were.

use vstd::prelude::*;
use vstd::string::*;

use crate::artifact::Artifact;

verus! {

/// Milliseconds to wait between two registry requests.
pub const DEFAULT_PAUSE_MILLIS: u64 = 1000;

/// One result document of a registry search.
#[derive(Debug)]
pub struct Doc {
    pub id: String,
    pub g: String,
    pub a: String,
    pub latest_version: String,
}

/// The result list of a registry search.
#[derive(Debug)]
pub struct SearchResponse {
    pub docs: Vec<Doc>,
}

/// The body of a registry search response.
#[derive(Debug)]
pub struct Envelope {
    pub response: SearchResponse,
}

/// The search expression for the group and artifact identifier of `a`.
pub open spec fn query_of(a: Artifact) -> Seq<char> {
    "g:"@ + a.group_id@ + " AND a:"@ + a.artifact_id@
}

/// The version that a search response gives: that of its first document,
/// none when it has no document.
pub open spec fn latest_of(e: Envelope) -> Option<Seq<char>> {
    if e.response.docs@.len() == 0 {
        None
    } else {
        Some(e.response.docs@[0].latest_version@)
    }
}

/// The text of an optional string.
pub open spec fn opt_view(o: Option<String>) -> Option<Seq<char>> {
    match o {
        Some(s) => Some(s@),
        None => None,
    }
}

/// Builds the search expression `g:<group> AND a:<artifact>` for `a`.
pub fn search_query(a: &Artifact) -> (r: String)
    ensures
        r@ == query_of(*a),
{
    let mut q = String::from_str("g:");
    q.append(a.group_id.as_str());
    q.append(" AND a:");
    q.append(a.artifact_id.as_str());
    q
}

/// The query parameters of the search for `a`: the search expression, one
/// row, and a JSON response.
pub fn search_params(a: &Artifact) -> (r: Vec<(String, String)>)
    ensures
        r@.len() == 3,
        r@[0].0@ == "q"@,
        r@[0].1@ == query_of(*a),
        r@[1].0@ == "rows"@,
        r@[1].1@ == "1"@,
        r@[2].0@ == "wt"@,
        r@[2].1@ == "json"@,
{
    let mut r: Vec<(String, String)> = Vec::new();
    r.push((String::from_str("q"), search_query(a)));
    r.push((String::from_str("rows"), String::from_str("1")));
    r.push((String::from_str("wt"), String::from_str("json")));
    r
}

/// The latest version that a search response reports, if any.
pub fn latest_version_in(e: &Envelope) -> (r: Option<String>)
    ensures
        opt_view(r) == latest_of(*e),
{
    if e.response.docs.len() == 0 {
        None
    } else {
        Some(e.response.docs[0].latest_version.clone())
    }
}

/// What the caller has to do next.
#[derive(Debug)]
pub enum EnrichStep {
    /// Wait this many milliseconds, then call `paused`.
    Pause(u64),
    /// Search the registry for the artifact at this index, then call
    /// `record` with what the response reports.
    Fetch(usize),
    /// Every artifact was looked up: call `apply`.
    Done,
}

/// The state of a lookup pass, as a mathematical value.
pub ghost struct EnrichmentView {
    pub total: nat,
    pub pause_millis: u64,
    pub found: Seq<Option<Seq<char>>>,
    pub paused: bool,
}

/// The step that a state calls for.
pub open spec fn step_of(s: EnrichmentView) -> EnrichStep {
    if s.found.len() >= s.total {
        EnrichStep::Done
    } else if s.found.len() > 0 && !s.paused {
        EnrichStep::Pause(s.pause_millis)
    } else {
        EnrichStep::Fetch(s.found.len() as usize)
    }
}

/// A lookup pass over a list of artifacts.
pub struct Enrichment {
    total: usize,
    pause_millis: u64,
    found: Vec<Option<String>>,
    paused: bool,
}

impl View for Enrichment {
    type V = EnrichmentView;

    closed spec fn view(&self) -> EnrichmentView {
        EnrichmentView {
            total: self.total as nat,
            pause_millis: self.pause_millis,
            found: self.found@.map_values(|o: Option<String>| opt_view(o)),
            paused: self.paused,
        }
    }
}

impl Enrichment {
    /// Every state of a pass has learnt at most one version per artifact.
    pub open spec fn wf(&self) -> bool {
        self@.found.len() <= self@.total
    }

    /// Starts a pass over `total` artifacts, pausing `pause_millis`
    /// milliseconds between two requests.
    pub fn new(total: usize, pause_millis: u64) -> (r: Enrichment)
        ensures
            r.wf(),
            r@.total == total,
            r@.pause_millis == pause_millis,
            r@.found.len() == 0,
            !r@.paused,
    {
        let r = Enrichment { total, pause_millis, found: Vec::new(), paused: false };
        assert(r@.found =~= Seq::<Option<Seq<char>>>::empty());
        r
    }

    /// The next step: a request for each artifact in turn, a pause before
    /// every request but the first, and the end once all are looked up.
    pub fn next_step(&self) -> (r: EnrichStep)
        requires
            self.wf(),
        ensures
            r == step_of(self@),
    {
        let n = self.found.len();
        if n >= self.total {
            EnrichStep::Done
        } else if n > 0 && !self.paused {
            EnrichStep::Pause(self.pause_millis)
        } else {
            EnrichStep::Fetch(n)
        }
    }

    /// Notes that the pause before the next request has been taken.
    pub fn paused(&mut self)
        requires
            old(self).wf(),
            step_of(old(self)@) is Pause,
        ensures
            final(self).wf(),
            final(self)@ == (EnrichmentView { paused: true, ..old(self)@ }),
    {
        self.paused = true;
    }

    /// Records the version that the registry reported for the artifact of
    /// the current request (none when it found no document).
    pub fn record(&mut self, latest: Option<String>)
        requires
            old(self).wf(),
            step_of(old(self)@) is Fetch,
        ensures
            final(self).wf(),
            final(self)@ == (EnrichmentView {
                found: old(self)@.found.push(opt_view(latest)),
                paused: false,
                ..old(self)@
            }),
    {
        let ghost before = self.found@;
        self.found.push(latest);
        self.paused = false;
        assert(self.found@.map_values(|o: Option<String>| opt_view(o)) =~= before.map_values(
            |o: Option<String>| opt_view(o),
        ).push(opt_view(latest)));
    }

    /// Sets on each artifact the version found for it; an artifact for which
    /// the registry had no document keeps its latest version as it was.
    pub fn apply(self, artifacts: &mut Vec<Artifact>)
        requires
            self.wf(),
            step_of(self@) is Done,
            old(artifacts)@.len() == self@.total,
        ensures
            final(artifacts)@.len() == old(artifacts)@.len(),
            forall|i: int|
                0 <= i < old(artifacts)@.len() ==> {
                    let a = #[trigger] final(artifacts)@[i];
                    let b = old(artifacts)@[i];
                    &&& a.group_id == b.group_id
                    &&& a.artifact_id == b.artifact_id
                    &&& a.version == b.version
                    &&& a.scope == b.scope
                    &&& a.children == b.children
                    &&& opt_view(a.latest_version) == match self@.found[i] {
                        Some(v) => Some(v),
                        None => opt_view(b.latest_version),
                    }
                },
    {
        let mut found = self.found;
        let ghost fv = found@;
        let ghost orig = artifacts@;
        let mut i: usize = found.len();
        assert(found@ =~= fv.subrange(0, i as int));
        while i > 0
            invariant
                i <= fv.len(),
                fv.len() == orig.len(),
                found@ == fv.subrange(0, i as int),
                artifacts@.len() == orig.len(),
                forall|j: int| 0 <= j < i ==> #[trigger] artifacts@[j] == orig[j],
                forall|j: int|
                    i <= j < orig.len() ==> {
                        let a = #[trigger] artifacts@[j];
                        let b = orig[j];
                        &&& a.group_id == b.group_id
                        &&& a.artifact_id == b.artifact_id
                        &&& a.version == b.version
                        &&& a.scope == b.scope
                        &&& a.children == b.children
                        &&& opt_view(a.latest_version) == match opt_view(fv[j]) {
                            Some(v) => Some(v),
                            None => opt_view(b.latest_version),
                        }
                    },
            decreases i,
        {
            i = i - 1;
            let f = found.pop();
            assert(found@ =~= fv.subrange(0, i as int));
            match f {
                Some(Some(v)) => {
                    artifacts[i].latest_version = Some(v);
                },
                _ => {},
            }
        }
        assert(forall|j: int| 0 <= j < orig.len() ==> self@.found[j] == opt_view(fv[j]));
    }
}

} // verus!
