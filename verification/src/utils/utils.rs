//! Miscellaneous helpers.
use vstd::prelude::*;

use crate::text::{chars_of, owned};

verus! {

broadcast use vstd::string::group_string_axioms;

/// The class root of a module: its `target/temp/unpack` directory (the
/// module path joined with it as `Path::join` does: a `/` in between unless
/// the module path is empty or already ends with one).
pub open spec fn class_root(mod_path: Seq<char>) -> Seq<char> {
    mod_path + (if mod_path.len() > 0 && mod_path.last() != '/' {
        "/"@
    } else {
        Seq::<char>::empty()
    }) + "target/temp/unpack"@
}

/// The CSlicer configuration for a module in a repository: its repository
/// path and class root, then, if the head commit is known, the end commit.
pub open spec fn cslicer_config(repo_path: Seq<char>, mod_path: Seq<char>, head: Option<Seq<char>>) -> Seq<char> {
    "repoPath = "@ + repo_path + "\n"@ + "classRoot = "@ + class_root(mod_path) + "\n"@ + match head {
        Some(h) => "endCommit = "@ + h + "\n"@,
        None => Seq::empty(),
    }
}

/// The text of a CSlicer configuration file (see `cslicer_config`).
pub fn cslicer_config_text(repo_path: &str, mod_path: &str, head: Option<&str>) -> (r: String)
    ensures
        r@ == cslicer_config(
            repo_path@,
            mod_path@,
            match head {
                Some(h) => Some(h@),
                None => None,
            },
        ),
{
    let mut r = owned("repoPath = ");
    r.append(repo_path);
    r.append("\n");
    r.append("classRoot = ");
    r.append(mod_path);
    let mv = chars_of(mod_path);
    if mv.len() > 0 && mv[mv.len() - 1] != '/' {
        r.append("/");
    }
    r.append("target/temp/unpack");
    r.append("\n");
    match head {
        Some(h) => {
            r.append("endCommit = ");
            r.append(h);
            r.append("\n");
        },
        None => {},
    }
    r
}

/// Every entry's list is at least as long as the lists of the entries after it.
pub open spec fn by_vsize_desc<K, V>(s: Seq<(K, Vec<V>)>) -> bool {
    forall|i: int, j: int| 0 <= i < j < s.len() ==> (#[trigger] s[i]).1@.len() >= (#[trigger] s[j]).1@.len()
}

/// The entries ordered by the length of their lists, longest first; entries
/// with lists of equal length keep their relative order.
pub fn sort_kvmap_by_vsize<K, V>(kv: Vec<(K, Vec<V>)>) -> (r: Vec<(K, Vec<V>)>)
    ensures
        r@.to_multiset() == kv@.to_multiset(),
        by_vsize_desc(r@),
{
    broadcast use vstd::seq_lib::group_to_multiset_ensures, vstd::multiset::group_multiset_axioms;

    let ghost orig = kv@;
    let mut rest = kv;
    let mut out: Vec<(K, Vec<V>)> = Vec::new();
    while rest.len() > 0
        invariant
            out@.to_multiset().add(rest@.to_multiset()) == orig.to_multiset(),
            by_vsize_desc(out@),
        decreases rest.len(),
    {
        let ghost rest_before = rest@;
        let e = rest.remove(0);
        assert(rest_before[0] == e);
        assert(rest_before.contains(e));
        assert(rest@ == rest_before.remove(0));
        let n = e.1.len();
        let mut p: usize = 0;
        while p < out.len() && out[p].1.len() >= n
            invariant
                p <= out.len(),
                by_vsize_desc(out@),
                forall|j: int| 0 <= j < p ==> (#[trigger] out@[j]).1@.len() >= n,
            decreases out.len() - p,
        {
            p = p + 1;
        }
        let ghost before = out@;
        assert forall|j: int| p <= j < before.len() implies (#[trigger] before[j]).1@.len() < n by {
            assert(before[p as int].1@.len() < n);
        }
        out.insert(p, e);
        proof {
            vstd::seq_lib::to_multiset_insert(before, p as int, e);
            vstd::seq_lib::to_multiset_remove(rest_before, 0);
            vstd::seq_lib::to_multiset_contains(rest_before, e);
        }
        assert(out@.to_multiset().add(rest@.to_multiset()) =~= before.to_multiset().add(
            rest_before.to_multiset(),
        ));
        assert forall|i: int, j: int| 0 <= i < j < out@.len() implies (#[trigger] out@[i]).1@.len()
            >= (#[trigger] out@[j]).1@.len() by {
            if j < p {
                assert(out@[i] == before[i] && out@[j] == before[j]);
            } else if j == p {
                assert(out@[i] == before[i]);
            } else if i < p {
                assert(out@[i] == before[i] && out@[j] == before[j - 1]);
            } else if i == p {
                assert(out@[j] == before[j - 1]);
            } else {
                assert(out@[i] == before[i - 1] && out@[j] == before[j - 1]);
            }
        }
    }
    out
}

} // verus!
