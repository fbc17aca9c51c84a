//! Flattening of a dependency tree into a sorted list with one entry per
//! coordinate.
//!
//! The tree is walked depth first, each node before its children. When the
//! same coordinate occurs more than once, the first occurrence in that walk
//! gives the entry (its scope and latest version); later ones are dropped.

use vstd::prelude::*;

use crate::artifact::{coord, coord_lt, lemma_coord_lt_strict_total, lemma_coord_lt_transitive, Artifact};

verus! {

broadcast use vstd::std_specs::vec::group_vec_axioms;

/// The nodes of a forest, depth first, each node before its children.
pub open spec fn preorder(s: Seq<Artifact>) -> Seq<Artifact>
    decreases s,
{
    if s.len() == 0 {
        Seq::empty()
    } else {
        seq![s[0]] + preorder(s[0].children@) + preorder(s.drop_first())
    }
}

/// Some element of `s` has coordinate `c`.
pub open spec fn has_coord(s: Seq<Artifact>, c: (Seq<char>, Seq<char>, Seq<char>)) -> bool {
    exists|i: int| 0 <= i < s.len() && coord(#[trigger] s[i]) == c
}

/// The first element of `s` with coordinate `c`.
pub open spec fn first_of(s: Seq<Artifact>, c: (Seq<char>, Seq<char>, Seq<char>)) -> Artifact
    decreases s.len(),
{
    if s.len() == 0 {
        arbitrary()
    } else if coord(s[0]) == c {
        s[0]
    } else {
        first_of(s.drop_first(), c)
    }
}

/// `e` is `a` without its children.
pub open spec fn stripped_copy(e: Artifact, a: Artifact) -> bool {
    &&& coord(e) == coord(a)
    &&& e.scope@ == a.scope@
    &&& e.latest_version == a.latest_version
    &&& e.children@.len() == 0
}

/// Ascending by coordinate, with no coordinate twice.
pub open spec fn strictly_sorted(s: Seq<Artifact>) -> bool {
    forall|i: int, j: int| 0 <= i < j < s.len() ==> coord_lt(coord(#[trigger] s[i]), coord(#[trigger] s[j]))
}

/// `out` is the flattening of the node sequence `nodes`: sorted by
/// coordinate without repeats, holding exactly the coordinates of `nodes`,
/// each entry a childless copy of the first node with its coordinate.
pub open spec fn is_flattening(out: Seq<Artifact>, nodes: Seq<Artifact>) -> bool {
    &&& strictly_sorted(out)
    &&& forall|c| has_coord(out, c) <==> has_coord(nodes, c)
    &&& forall|i: int| 0 <= i < out.len() ==> stripped_copy(#[trigger] out[i], first_of(nodes, coord(out[i])))
}

proof fn lemma_preorder_append(a: Seq<Artifact>, b: Seq<Artifact>)
    ensures
        preorder(a + b) == preorder(a) + preorder(b),
    decreases a.len(),
{
    if a.len() == 0 {
        assert(a + b =~= b);
        assert(preorder(a) + preorder(b) =~= preorder(b));
    } else {
        assert((a + b).drop_first() =~= a.drop_first() + b);
        lemma_preorder_append(a.drop_first(), b);
        assert(preorder(a + b) =~= preorder(a) + preorder(b));
    }
}

proof fn lemma_preorder_single(x: Artifact)
    ensures
        preorder(seq![x]) == seq![x] + preorder(x.children@),
{
    let s = seq![x];
    assert(s.drop_first() =~= Seq::<Artifact>::empty());
    assert(s[0] == x);
    assert(preorder(Seq::<Artifact>::empty()) == Seq::<Artifact>::empty());
    assert(preorder(s) == seq![s[0]] + preorder(s[0].children@) + preorder(s.drop_first()));
    assert(preorder(s) =~= seq![x] + preorder(x.children@));
}

proof fn lemma_first_of_push(s: Seq<Artifact>, x: Artifact, c: (Seq<char>, Seq<char>, Seq<char>))
    ensures
        has_coord(s, c) ==> first_of(s.push(x), c) == first_of(s, c),
        !has_coord(s, c) && coord(x) == c ==> first_of(s.push(x), c) == x,
    decreases s.len(),
{
    if s.len() > 0 {
        assert(s.push(x).drop_first() =~= s.drop_first().push(x));
        if coord(s[0]) != c {
            if has_coord(s, c) {
                let i = choose|i: int| 0 <= i < s.len() && coord(#[trigger] s[i]) == c;
                assert(s.drop_first()[i - 1] == s[i]);
            }
            if has_coord(s.drop_first(), c) {
                let i = choose|i: int| 0 <= i < s.drop_first().len() && coord(#[trigger] s.drop_first()[i]) == c;
                assert(s[i + 1] == s.drop_first()[i]);
            }
            lemma_first_of_push(s.drop_first(), x, c);
        } else {
            assert(coord(s[0]) == c);
        }
    } else {
        assert(seq![x].drop_first() =~= Seq::<Artifact>::empty());
        assert(s.push(x) =~= seq![x]);
    }
}

proof fn lemma_has_coord_push(s: Seq<Artifact>, x: Artifact)
    ensures
        forall|c| has_coord(s.push(x), c) <==> (has_coord(s, c) || coord(x) == c),
{
    assert forall|c| has_coord(s.push(x), c) <==> (has_coord(s, c) || coord(x) == c) by {
        if has_coord(s.push(x), c) {
            let i = choose|i: int| 0 <= i < s.push(x).len() && coord(#[trigger] s.push(x)[i]) == c;
            if i < s.len() {
                assert(s[i] == s.push(x)[i]);
            }
        }
        if has_coord(s, c) {
            let i = choose|i: int| 0 <= i < s.len() && coord(#[trigger] s[i]) == c;
            assert(s.push(x)[i] == s[i]);
        }
        if coord(x) == c {
            assert(s.push(x)[s.len() as int] == x);
        }
    }
}

fn stripped(a: &Artifact) -> (r: Artifact)
    ensures
        stripped_copy(r, *a),
{
    let latest = match &a.latest_version {
        Some(v) => Some(v.clone()),
        None => None,
    };
    Artifact {
        group_id: a.group_id.clone(),
        artifact_id: a.artifact_id.clone(),
        version: a.version.clone(),
        scope: a.scope.clone(),
        children: Vec::new(),
        latest_version: latest,
    }
}

/// Adds `a` to the flattening `out` of `seen`, giving the flattening of
/// `seen` followed by `a`.
fn add_node(out: &mut Vec<Artifact>, a: &Artifact, Ghost(seen): Ghost<Seq<Artifact>>)
    requires
        is_flattening(old(out)@, seen),
    ensures
        is_flattening(final(out)@, seen.push(*a)),
{
    proof {
        lemma_has_coord_push(seen, *a);
    }
    let mut i: usize = 0;
    while i < out.len()
        invariant
            is_flattening(out@, seen),
            i <= out@.len(),
            forall|j: int| 0 <= j < i ==> coord_lt(coord(#[trigger] out@[j]), coord(*a)),
        ensures
            is_flattening(out@, seen),
            i <= out@.len(),
            forall|j: int| 0 <= j < i ==> coord_lt(coord(#[trigger] out@[j]), coord(*a)),
            i < out@.len() ==> !coord_lt(coord(out@[i as int]), coord(*a)),
        decreases out@.len() - i,
    {
        match out[i].compare(a) {
            core::cmp::Ordering::Less => {
                i = i + 1;
            },
            _ => {
                break;
            },
        }
    }
    if i < out.len() && out[i].same_coord(a) {
        proof {
            assert(has_coord(out@, coord(*a)));
            assert forall|j: int| 0 <= j < out@.len() implies stripped_copy(
                #[trigger] out@[j],
                first_of(seen.push(*a), coord(out@[j])),
            ) by {
                assert(has_coord(out@, coord(out@[j])));
                lemma_first_of_push(seen, *a, coord(out@[j]));
            }
        }
        return;
    }
    proof {
        if i < out@.len() {
            lemma_coord_lt_strict_total(coord(out@[i as int]), coord(*a));
        }
        assert forall|j: int| 0 <= j < out@.len() implies coord(#[trigger] out@[j]) != coord(*a) by {
            if j >= i {
                lemma_coord_lt_strict_total(coord(*a), coord(out@[j]));
                if j > i {
                    lemma_coord_lt_transitive(coord(*a), coord(out@[i as int]), coord(out@[j]));
                }
            } else {
                lemma_coord_lt_strict_total(coord(out@[j]), coord(*a));
            }
        }
        assert(!has_coord(seen, coord(*a)));
        assert forall|j: int| i <= j < out@.len() implies coord_lt(coord(*a), coord(#[trigger] out@[j])) by {
            lemma_coord_lt_strict_total(coord(*a), coord(out@[j]));
            if j > i {
                lemma_coord_lt_transitive(coord(*a), coord(out@[i as int]), coord(out@[j]));
            }
        }
    }
    let e = stripped(a);
    let ghost before = out@;
    out.insert(i, e);
    proof {
        let after = out@;
        assert forall|p: int, q: int| 0 <= p < q < after.len() implies coord_lt(
            coord(#[trigger] after[p]),
            coord(#[trigger] after[q]),
        ) by {
            if q < i {
            } else if q == i {
            } else if p < i {
                assert(after[q] == before[q - 1]);
                lemma_coord_lt_transitive(coord(after[p]), coord(*a), coord(after[q]));
            } else if p == i {
                assert(after[q] == before[q - 1]);
            } else {
                assert(after[p] == before[p - 1]);
                assert(after[q] == before[q - 1]);
            }
        }
        assert forall|c| has_coord(after, c) <==> has_coord(seen.push(*a), c) by {
            if has_coord(after, c) {
                let k = choose|k: int| 0 <= k < after.len() && coord(#[trigger] after[k]) == c;
                if k < i {
                    assert(before[k] == after[k]);
                } else if k > i {
                    assert(before[k - 1] == after[k]);
                }
            }
            if has_coord(before, c) {
                let k = choose|k: int| 0 <= k < before.len() && coord(#[trigger] before[k]) == c;
                if k < i {
                    assert(before[k] == after[k]);
                } else {
                    assert(before[k] == after[k + 1]);
                }
            }
            if c == coord(*a) {
                assert(after[i as int] == e);
            }
        }
        assert forall|k: int| 0 <= k < after.len() implies stripped_copy(
            #[trigger] after[k],
            first_of(seen.push(*a), coord(after[k])),
        ) by {
            if k == i {
                lemma_first_of_push(seen, *a, coord(*a));
            } else {
                let b = if k < i { k } else { k - 1 };
                assert(after[k] == before[b]);
                assert(has_coord(before, coord(before[b])));
                lemma_first_of_push(seen, *a, coord(after[k]));
            }
        }
    }
}

/// Adds every node of `forest`, depth first, to the flattening `out` of
/// `seen`.
fn add_artifacts_to_set(forest: &Vec<Artifact>, out: &mut Vec<Artifact>, Ghost(seen): Ghost<Seq<Artifact>>)
    requires
        is_flattening(old(out)@, seen),
    ensures
        is_flattening(final(out)@, seen + preorder(forest@)),
    decreases forest,
{
    let mut i: usize = 0;
    proof {
        assert(forest@.subrange(0, 0) =~= Seq::<Artifact>::empty());
        assert(seen + preorder(Seq::<Artifact>::empty()) =~= seen);
    }
    while i < forest.len()
        invariant
            i <= forest@.len(),
            is_flattening(out@, seen + preorder(forest@.subrange(0, i as int))),
        decreases forest@.len() - i,
    {
        let node = &forest[i];
        let ghost before = seen + preorder(forest@.subrange(0, i as int));
        add_node(out, node, Ghost(before));
        assert(decreases_to!(forest => forest[i as int]));
        add_artifacts_to_set(&node.children, out, Ghost(before.push(*node)));
        proof {
            assert(forest@.subrange(0, i + 1) =~= forest@.subrange(0, i as int) + seq![*node]);
            lemma_preorder_append(forest@.subrange(0, i as int), seq![*node]);
            lemma_preorder_single(*node);
            assert(before.push(*node) + preorder(node.children@) =~= seen + preorder(
                forest@.subrange(0, i + 1),
            ));
        }
        i = i + 1;
    }
    assert(forest@.subrange(0, i as int) =~= forest@);
}

impl Artifact {
    /// The transitive dependencies of this artifact (the root itself left
    /// out), one childless entry per coordinate, sorted by coordinate. Of
    /// several nodes with one coordinate, the first in a depth-first walk
    /// that visits each node before its children gives the entry.
    pub fn flatten(self) -> (r: Vec<Artifact>)
        ensures
            is_flattening(r@, preorder(self.children@)),
    {
        let mut out: Vec<Artifact> = Vec::new();
        proof {
            assert(is_flattening(out@, Seq::<Artifact>::empty()));
        }
        add_artifacts_to_set(&self.children, &mut out, Ghost(Seq::empty()));
        assert(Seq::<Artifact>::empty() + preorder(self.children@) =~= preorder(self.children@));
        out
    }
}

proof fn lemma_has_coord_drop_first(r: Seq<Artifact>)
    requires
        r.len() > 0,
        strictly_sorted(r),
    ensures
        forall|c| has_coord(r.drop_first(), c) <==> (has_coord(r, c) && c != coord(r[0])),
{
    assert forall|c| has_coord(r.drop_first(), c) <==> (has_coord(r, c) && c != coord(r[0])) by {
        if has_coord(r.drop_first(), c) {
            let k = choose|k: int| 0 <= k < r.drop_first().len() && coord(#[trigger] r.drop_first()[k]) == c;
            assert(r[k + 1] == r.drop_first()[k]);
            assert(coord_lt(coord(r[0]), coord(r[k + 1])));
            lemma_coord_lt_strict_total(coord(r[0]), coord(r[0]));
        }
        if has_coord(r, c) && c != coord(r[0]) {
            let k = choose|k: int| 0 <= k < r.len() && coord(#[trigger] r[k]) == c;
            assert(r.drop_first()[k - 1] == r[k]);
        }
    }
}

proof fn lemma_sorted_same_coords(r1: Seq<Artifact>, r2: Seq<Artifact>)
    requires
        strictly_sorted(r1),
        strictly_sorted(r2),
        forall|c| has_coord(r1, c) <==> has_coord(r2, c),
    ensures
        r1.len() == r2.len(),
        forall|i: int| 0 <= i < r1.len() ==> coord(#[trigger] r1[i]) == coord(r2[i]),
    decreases r1.len(),
{
    if r1.len() == 0 || r2.len() == 0 {
        if r1.len() > 0 {
            assert(has_coord(r1, coord(r1[0])));
        }
        if r2.len() > 0 {
            assert(has_coord(r2, coord(r2[0])));
        }
    } else {
        assert(has_coord(r1, coord(r1[0])));
        assert(has_coord(r2, coord(r2[0])));
        let k = choose|k: int| 0 <= k < r2.len() && coord(#[trigger] r2[k]) == coord(r1[0]);
        let m = choose|m: int| 0 <= m < r1.len() && coord(#[trigger] r1[m]) == coord(r2[0]);
        lemma_coord_lt_strict_total(coord(r1[0]), coord(r2[0]));
        if k > 0 {
            assert(coord_lt(coord(r2[0]), coord(r2[k])));
            if m > 0 {
                assert(coord_lt(coord(r1[0]), coord(r1[m])));
            }
        }
        assert(coord(r1[0]) == coord(r2[0]));
        lemma_has_coord_drop_first(r1);
        lemma_has_coord_drop_first(r2);
        assert forall|c| has_coord(r1.drop_first(), c) <==> has_coord(r2.drop_first(), c) by {
            assert(has_coord(r1, c) <==> has_coord(r2, c));
        }
        assert(strictly_sorted(r1.drop_first()));
        assert(strictly_sorted(r2.drop_first()));
        lemma_sorted_same_coords(r1.drop_first(), r2.drop_first());
        assert forall|i: int| 0 <= i < r1.len() implies coord(#[trigger] r1[i]) == coord(r2[i]) by {
            if i > 0 {
                assert(r1[i] == r1.drop_first()[i - 1]);
                assert(r2[i] == r2.drop_first()[i - 1]);
            }
        }
    }
}

/// Flattening one tree twice gives the same list: the same length, and at
/// each position the same coordinate, scope and latest version, without
/// children.
pub proof fn lemma_flatten_deterministic(root: Artifact, r1: Seq<Artifact>, r2: Seq<Artifact>)
    requires
        is_flattening(r1, preorder(root.children@)),
        is_flattening(r2, preorder(root.children@)),
    ensures
        r1.len() == r2.len(),
        forall|i: int|
            0 <= i < r1.len() ==> {
                &&& coord(#[trigger] r1[i]) == coord(r2[i])
                &&& r1[i].scope@ == r2[i].scope@
                &&& r1[i].latest_version == r2[i].latest_version
                &&& r1[i].children@.len() == 0
                &&& r2[i].children@.len() == 0
            },
{
    let nodes = preorder(root.children@);
    assert forall|c| has_coord(r1, c) <==> has_coord(r2, c) by {
        assert(has_coord(r1, c) <==> has_coord(nodes, c));
        assert(has_coord(r2, c) <==> has_coord(nodes, c));
    }
    lemma_sorted_same_coords(r1, r2);
    assert forall|i: int| 0 <= i < r1.len() implies {
        &&& coord(#[trigger] r1[i]) == coord(r2[i])
        &&& r1[i].scope@ == r2[i].scope@
        &&& r1[i].latest_version == r2[i].latest_version
        &&& r1[i].children@.len() == 0
        &&& r2[i].children@.len() == 0
    } by {
        assert(stripped_copy(r1[i], first_of(nodes, coord(r1[i]))));
        assert(stripped_copy(r2[i], first_of(nodes, coord(r2[i]))));
    }
}

/// A coordinate that occurs anywhere below the root, once or many times,
/// has exactly one entry in the flattened list.
pub proof fn lemma_flatten_one_entry_per_coord(
    root: Artifact,
    r: Seq<Artifact>,
    c: (Seq<char>, Seq<char>, Seq<char>),
)
    requires
        is_flattening(r, preorder(root.children@)),
        has_coord(preorder(root.children@), c),
    ensures
        exists|i: int|
            0 <= i < r.len() && coord(#[trigger] r[i]) == c && forall|j: int|
                0 <= j < r.len() && coord(#[trigger] r[j]) == c ==> j == i,
{
    assert(has_coord(r, c));
    let i = choose|i: int| 0 <= i < r.len() && coord(#[trigger] r[i]) == c;
    assert forall|j: int| 0 <= j < r.len() && coord(#[trigger] r[j]) == c implies j == i by {
        lemma_coord_lt_strict_total(c, c);
        if j < i {
            assert(coord_lt(coord(r[j]), coord(r[i])));
        } else if j > i {
            assert(coord_lt(coord(r[i]), coord(r[j])));
        }
    }
}

} // verus!
