//! The filter applied to the flattened list, and the comma-separated report.

use vstd::prelude::*;
use vstd::string::*;

use crate::artifact::{in_namespace, runtime_scope, Artifact};
use crate::flatten::{is_flattening, preorder};

verus! {

/// An artifact stays in the report when it lies outside the root project's
/// namespace `ns` and its scope is needed at run time.
pub open spec fn report_keeps(a: Artifact, ns: Seq<char>) -> bool {
    !in_namespace(a.group_id@, ns) && runtime_scope(a.scope@)
}

/// Removes from `flat` every artifact of the namespace `root_group` and every
/// artifact whose scope is not needed at run time, keeping the order of the
/// others.
pub fn filter_for_report(flat: Vec<Artifact>, root_group: &str) -> (r: Vec<Artifact>)
    ensures
        r@ == flat@.filter(|a: Artifact| report_keeps(a, root_group@)),
{
    let ghost pred = |a: Artifact| report_keeps(a, root_group@);
    let ghost orig = flat@;
    let mut v = flat;
    let mut i: usize = 0;
    let ghost mut k: int = 0;
    proof {
        reveal(Seq::filter);
        assert(orig.subrange(0, 0).filter(pred) =~= Seq::<Artifact>::empty());
        assert(v@.subrange(0, 0) =~= Seq::<Artifact>::empty());
        assert(v@.skip(0) =~= orig.skip(0));
    }
    while i < v.len()
        invariant
            pred == (|a: Artifact| report_keeps(a, root_group@)),
            0 <= k <= orig.len(),
            i <= v@.len(),
            v@.subrange(0, i as int) == orig.subrange(0, k).filter(pred),
            v@.skip(i as int) == orig.skip(k),
        decreases v@.len() - i,
    {
        let ghost before = v@;
        proof {
            assert(orig.skip(k).len() == before.skip(i as int).len());
            assert(orig[k] == orig.skip(k)[0]);
            assert(before[i as int] == before.skip(i as int)[0]);
            assert(orig.subrange(0, k + 1).drop_last() =~= orig.subrange(0, k));
            assert(orig.subrange(0, k + 1).last() == orig[k]);
            assert(orig.skip(k + 1) =~= orig.skip(k).drop_first());
            reveal(Seq::filter);
        }
        let keep = !v[i].belongs_to(root_group) && v[i].is_runtime();
        if keep {
            proof {
                assert(v@.subrange(0, i + 1) =~= v@.subrange(0, i as int).push(v@[i as int]));
                assert(v@.skip(i + 1) =~= v@.skip(i as int).drop_first());
                assert(pred(orig[k]));
                assert(orig.subrange(0, k + 1).filter(pred) == orig.subrange(0, k).filter(pred).push(orig[k]));
            }
            i = i + 1;
        } else {
            v.remove(i);
            proof {
                assert(v@.subrange(0, i as int) =~= before.subrange(0, i as int));
                assert(v@.skip(i as int) =~= before.skip(i as int).drop_first());
                assert(!pred(orig[k]));
                assert(orig.subrange(0, k + 1).filter(pred) == orig.subrange(0, k).filter(pred));
            }
        }
        proof {
            k = k + 1;
        }
    }
    proof {
        assert(orig.skip(k).len() == 0);
        assert(pred == (|a: Artifact| report_keeps(a, root_group@)));
        assert(orig.subrange(0, k) =~= orig);
        assert(v@.subrange(0, i as int) =~= v@);
    }
    v
}

/// The entries of the report on `root`: its flattened dependencies, less
/// those of its own namespace and those not needed at run time.
pub fn report_entries(root: Artifact) -> (r: Vec<Artifact>)
    ensures
        exists|f: Seq<Artifact>|
            is_flattening(f, preorder(root.children@)) && r@ == f.filter(
                |a: Artifact| report_keeps(a, root.group_id@),
            ),
{
    let group = root.group_id.clone();
    let ghost nodes = preorder(root.children@);
    let flat = root.flatten();
    let r = filter_for_report(flat, group.as_str());
    assert(is_flattening(flat@, nodes));
    r
}

/// The report filter keeps only artifacts outside the root's namespace with
/// a scope needed at run time, and keeps every such artifact.
pub proof fn lemma_report_filter(flat: Seq<Artifact>, ns: Seq<char>, r: Seq<Artifact>)
    requires
        r == flat.filter(|a: Artifact| report_keeps(a, ns)),
    ensures
        forall|i: int|
            0 <= i < r.len() ==> !in_namespace((#[trigger] r[i]).group_id@, ns) && runtime_scope(
                r[i].scope@,
            ),
        forall|i: int|
            0 <= i < flat.len() && report_keeps(#[trigger] flat[i], ns) ==> r.contains(flat[i]),
{
    broadcast use vstd::seq_lib::group_filter_ensures;

    let pred = |a: Artifact| report_keeps(a, ns);
    assert forall|i: int| 0 <= i < r.len() implies !in_namespace((#[trigger] r[i]).group_id@, ns)
        && runtime_scope(r[i].scope@) by {
        flat.lemma_filter_pred(pred, i);
    }
    assert forall|i: int| 0 <= i < flat.len() && report_keeps(#[trigger] flat[i], ns) implies r.contains(flat[i]) by {
        flat.lemma_filter_contains(pred, i);
    }
}

/// The latest known version as text, empty when unknown.
pub open spec fn latest_text(a: Artifact) -> Seq<char> {
    match a.latest_version {
        Some(v) => v@,
        None => Seq::empty(),
    }
}

/// The report line of one artifact: `group,artifact,version,latest` and a
/// line break.
pub open spec fn csv_line_of(a: Artifact) -> Seq<char> {
    a.group_id@ + ","@ + a.artifact_id@ + ","@ + a.version@ + ","@ + latest_text(a) + "\n"@
}

/// The report: one line per artifact, in the order given.
pub open spec fn csv_text(s: Seq<Artifact>) -> Seq<char>
    decreases s.len(),
{
    if s.len() == 0 {
        Seq::empty()
    } else {
        csv_text(s.drop_last()) + csv_line_of(s.last())
    }
}

/// Renders the report line of `a`.
pub fn csv_line(a: &Artifact) -> (r: String)
    ensures
        r@ == csv_line_of(*a),
{
    let mut s = a.group_id.clone();
    s.append(",");
    s.append(a.artifact_id.as_str());
    s.append(",");
    s.append(a.version.as_str());
    s.append(",");
    match &a.latest_version {
        Some(v) => s.append(v.as_str()),
        None => {},
    }
    s.append("\n");
    proof {
        if a.latest_version is None {
            assert(latest_text(*a) =~= Seq::<char>::empty());
        }
        assert(s@ =~= csv_line_of(*a));
    }
    s
}

/// Renders the whole report, one line per artifact, in the order given.
pub fn render_csv(artifacts: &Vec<Artifact>) -> (r: String)
    ensures
        r@ == csv_text(artifacts@),
{
    let mut out = String::new();
    let mut i: usize = 0;
    proof {
        assert(artifacts@.subrange(0, 0) =~= Seq::<Artifact>::empty());
    }
    while i < artifacts.len()
        invariant
            i <= artifacts@.len(),
            out@ == csv_text(artifacts@.subrange(0, i as int)),
        decreases artifacts@.len() - i,
    {
        let line = csv_line(&artifacts[i]);
        out.append(line.as_str());
        proof {
            assert(artifacts@.subrange(0, i + 1).drop_last() =~= artifacts@.subrange(0, i as int));
        }
        i = i + 1;
    }
    assert(artifacts@.subrange(0, i as int) =~= artifacts@);
    out
}

} // verus!
