//! The tally behind the API ranking: for each API name, the files that list
//! it. Reading the files happens outside the library; each file arrives as
//! its name and its lines.
use vstd::prelude::*;

use crate::text::{contains_string, str_eq, views};

verus! {

broadcast use vstd::string::group_string_axioms;

/// A name with a list of strings, as character sequences.
pub open spec fn entry_view(e: (String, Vec<String>)) -> (Seq<char>, Seq<Seq<char>>) {
    (e.0@, views(e.1@))
}

/// `entry_view` of each entry.
pub open spec fn entries_view(s: Seq<(String, Vec<String>)>) -> Seq<(Seq<char>, Seq<Seq<char>>)> {
    s.map_values(|e: (String, Vec<String>)| entry_view(e))
}

/// The file named `file` lists `api` among its lines.
pub open spec fn lists_api(fs: Seq<(Seq<char>, Seq<Seq<char>>)>, api: Seq<char>, file: Seq<char>) -> bool {
    exists|i: int| 0 <= i < fs.len() && fs[i].0 == file && #[trigger] fs[i].1.contains(api)
}

/// Some file lists `api`.
pub open spec fn api_listed(fs: Seq<(Seq<char>, Seq<Seq<char>>)>, api: Seq<char>) -> bool {
    exists|i: int| 0 <= i < fs.len() && #[trigger] fs[i].1.contains(api)
}

/// In the tally `g`, the entry of `api` holds `file`.
pub open spec fn tally_has(g: Seq<(Seq<char>, Seq<Seq<char>>)>, api: Seq<char>, file: Seq<char>) -> bool {
    exists|k: int| 0 <= k < g.len() && g[k].0 == api && #[trigger] g[k].1.contains(file)
}

/// The tally `g` has an entry for `api`.
pub open spec fn tally_key(g: Seq<(Seq<char>, Seq<Seq<char>>)>, api: Seq<char>) -> bool {
    exists|k: int| 0 <= k < g.len() && (#[trigger] g[k]).0 == api
}

/// No API has two entries, and no entry names a file twice.
pub open spec fn tally_wf(g: Seq<(Seq<char>, Seq<Seq<char>>)>) -> bool {
    &&& forall|i: int, j: int| 0 <= i < j < g.len() ==> (#[trigger] g[i]).0 != (#[trigger] g[j]).0
    &&& forall|k: int| 0 <= k < g.len() ==> (#[trigger] g[k]).1.no_duplicates()
}

/// The index of the entry of `api`, if there is one.
fn find_entry(g: &Vec<(String, Vec<String>)>, api: &str) -> (r: Option<usize>)
    ensures
        match r {
            Some(k) => k < g@.len() && g@[k as int].0@ == api@,
            None => forall|k: int| 0 <= k < g@.len() ==> (#[trigger] g@[k]).0@ != api@,
        },
{
    let mut k: usize = 0;
    while k < g.len()
        invariant
            k <= g@.len(),
            forall|j: int| 0 <= j < k ==> (#[trigger] g@[j]).0@ != api@,
        decreases g.len() - k,
    {
        if str_eq(g[k].0.as_str(), api) {
            return Some(k);
        }
        k = k + 1;
    }
    None
}

/// Records in the tally that `file` lists `api`.
fn add_occurrence(g: &mut Vec<(String, Vec<String>)>, api: &String, file: &String)
    requires
        tally_wf(entries_view(old(g)@)),
    ensures
        tally_wf(entries_view(final(g)@)),
        forall|a: Seq<char>, f: Seq<char>|
            #![trigger tally_has(entries_view(final(g)@), a, f)]
            tally_has(entries_view(final(g)@), a, f) <==> (tally_has(entries_view(old(g)@), a, f) || (a
                == api@ && f == file@)),
        forall|a: Seq<char>|
            #![trigger tally_key(entries_view(final(g)@), a)]
            tally_key(entries_view(final(g)@), a) <==> (tally_key(entries_view(old(g)@), a) || a == api@),
{
    let ghost old_g = g@;
    let ghost old_v = entries_view(g@);
    match find_entry(g, api.as_str()) {
        Some(k) => {
            if !contains_string(&g[k].1, file.as_str()) {
                let (key, mut fl) = g.remove(k);
                let ghost old_fl = views(fl@);
                fl.push(file.clone());
                assert(views(fl@) =~= old_fl.push(file@));
                g.insert(k, (key, fl));
                let ghost new_v = entries_view(g@);
                assert(new_v =~= old_v.update(k as int, (api@, old_fl.push(file@))));
                assert forall|a: Seq<char>, f: Seq<char>|
                    tally_has(new_v, a, f) <==> (tally_has(old_v, a, f) || (a == api@ && f == file@)) by {
                    if tally_has(new_v, a, f) {
                        let j = choose|j: int| 0 <= j < new_v.len() && new_v[j].0 == a && #[trigger] new_v[j].1.contains(f);
                        if j != k {
                            assert(old_v[j] == new_v[j]);
                            assert(old_v[j].1.contains(f));
                        } else if f != file@ {
                            let t = choose|t: int| 0 <= t < new_v[j].1.len() && new_v[j].1[t] == f;
                            assert(old_v[j].1[t] == f);
                            assert(old_v[j].1.contains(f));
                        }
                    }
                    if tally_has(old_v, a, f) {
                        let j = choose|j: int| 0 <= j < old_v.len() && old_v[j].0 == a && #[trigger] old_v[j].1.contains(f);
                        if j != k {
                            assert(new_v[j] == old_v[j]);
                        } else {
                            let t = choose|t: int| 0 <= t < old_v[j].1.len() && old_v[j].1[t] == f;
                            assert(new_v[j].1[t] == f);
                        }
                        assert(new_v[j].1.contains(f));
                    }
                    if a == api@ && f == file@ {
                        assert(new_v[k as int].1[old_fl.len() as int] == f);
                        assert(new_v[k as int].1.contains(f));
                    }
                }
                assert forall|a: Seq<char>| tally_key(new_v, a) <==> (tally_key(old_v, a) || a == api@) by {
                    if tally_key(new_v, a) {
                        let j = choose|j: int| 0 <= j < new_v.len() && (#[trigger] new_v[j]).0 == a;
                        assert(old_v[j].0 == a);
                    }
                    if tally_key(old_v, a) {
                        let j = choose|j: int| 0 <= j < old_v.len() && (#[trigger] old_v[j]).0 == a;
                        assert(new_v[j].0 == a);
                    }
                    if a == api@ {
                        assert(new_v[k as int].0 == a);
                    }
                }
                assert(tally_wf(new_v)) by {
                    assert forall|i: int, j: int| 0 <= i < j < new_v.len() implies (#[trigger] new_v[i]).0
                        != (#[trigger] new_v[j]).0 by {
                        assert(old_v[i].0 == new_v[i].0 && old_v[j].0 == new_v[j].0);
                    }
                    assert forall|j: int| 0 <= j < new_v.len() implies (#[trigger] new_v[j]).1.no_duplicates() by {
                        if j == k {
                            assert(old_v[j].1.no_duplicates());
                        } else {
                            assert(old_v[j] == new_v[j]);
                        }
                    }
                }
            } else {
                assert forall|a: Seq<char>, f: Seq<char>|
                    (a == api@ && f == file@) implies tally_has(old_v, a, f) by {
                    assert(old_v[k as int].1.contains(f));
                }
            }
        },
        None => {
            let mut fl: Vec<String> = Vec::new();
            fl.push(file.clone());
            assert(views(fl@) =~= seq![file@]);
            g.push((api.clone(), fl));
            let ghost new_v = entries_view(g@);
            assert(new_v =~= old_v.push((api@, seq![file@])));
            assert forall|a: Seq<char>, f: Seq<char>|
                tally_has(new_v, a, f) <==> (tally_has(old_v, a, f) || (a == api@ && f == file@)) by {
                if tally_has(new_v, a, f) {
                    let j = choose|j: int| 0 <= j < new_v.len() && new_v[j].0 == a && #[trigger] new_v[j].1.contains(f);
                    if j < old_v.len() {
                        assert(old_v[j] == new_v[j]);
                        assert(old_v[j].1.contains(f));
                    } else {
                        let t = choose|t: int| 0 <= t < new_v[j].1.len() && new_v[j].1[t] == f;
                    }
                }
                if tally_has(old_v, a, f) {
                    let j = choose|j: int| 0 <= j < old_v.len() && old_v[j].0 == a && #[trigger] old_v[j].1.contains(f);
                    assert(new_v[j] == old_v[j]);
                    assert(new_v[j].1.contains(f));
                }
                if a == api@ && f == file@ {
                    assert(new_v[old_v.len() as int].1[0] == f);
                    assert(new_v[old_v.len() as int].1.contains(f));
                }
            }
            assert forall|a: Seq<char>| tally_key(new_v, a) <==> (tally_key(old_v, a) || a == api@) by {
                if tally_key(new_v, a) {
                    let j = choose|j: int| 0 <= j < new_v.len() && (#[trigger] new_v[j]).0 == a;
                    if j < old_v.len() {
                        assert(old_v[j].0 == a);
                    }
                }
                if tally_key(old_v, a) {
                    let j = choose|j: int| 0 <= j < old_v.len() && (#[trigger] old_v[j]).0 == a;
                    assert(new_v[j].0 == a);
                }
                if a == api@ {
                    assert(new_v[old_v.len() as int].0 == a);
                }
            }
            assert(tally_wf(new_v)) by {
                assert forall|i: int, j: int| 0 <= i < j < new_v.len() implies (#[trigger] new_v[i]).0
                    != (#[trigger] new_v[j]).0 by {
                    if j == old_v.len() {
                        assert(old_g[i].0@ == new_v[i].0);
                    } else {
                        assert(old_v[i] == new_v[i] && old_v[j] == new_v[j]);
                    }
                }
                assert forall|j: int| 0 <= j < new_v.len() implies (#[trigger] new_v[j]).1.no_duplicates() by {
                    if j < old_v.len() {
                        assert(old_v[j] == new_v[j]);
                    }
                }
            }
        },
    }
}

/// Taking one more file into account adds exactly that file's listings.
proof fn lemma_one_more_file(fs: Seq<(Seq<char>, Seq<Seq<char>>)>, i: int)
    requires
        0 <= i < fs.len(),
    ensures
        forall|a: Seq<char>, f: Seq<char>|
            #![trigger lists_api(fs.take(i + 1), a, f)]
            lists_api(fs.take(i + 1), a, f) <==> (lists_api(fs.take(i), a, f) || (f == fs[i].0
                && fs[i].1.contains(a))),
        forall|a: Seq<char>|
            #![trigger api_listed(fs.take(i + 1), a)]
            api_listed(fs.take(i + 1), a) <==> (api_listed(fs.take(i), a) || fs[i].1.contains(a)),
{
    let p = fs.take(i);
    let q = fs.take(i + 1);
    assert forall|a: Seq<char>, f: Seq<char>|
        lists_api(q, a, f) <==> (lists_api(p, a, f) || (f == fs[i].0 && fs[i].1.contains(a))) by {
        if lists_api(q, a, f) {
            let k = choose|k: int| 0 <= k < q.len() && q[k].0 == f && #[trigger] q[k].1.contains(a);
            if k < i {
                assert(p[k] == q[k]);
            }
        }
        if lists_api(p, a, f) {
            let k = choose|k: int| 0 <= k < p.len() && p[k].0 == f && #[trigger] p[k].1.contains(a);
            assert(q[k] == p[k]);
        }
        if f == fs[i].0 && fs[i].1.contains(a) {
            assert(q[i] == fs[i]);
        }
    }
    assert forall|a: Seq<char>| api_listed(q, a) <==> (api_listed(p, a) || fs[i].1.contains(a)) by {
        if api_listed(q, a) {
            let k = choose|k: int| 0 <= k < q.len() && #[trigger] q[k].1.contains(a);
            if k < i {
                assert(p[k] == q[k]);
            }
        }
        if api_listed(p, a) {
            let k = choose|k: int| 0 <= k < p.len() && #[trigger] p[k].1.contains(a);
            assert(q[k] == p[k]);
        }
        if fs[i].1.contains(a) {
            assert(q[i] == fs[i]);
        }
    }
}

/// For each API name listed in the files, the files that list it: one entry
/// per API name, each file named once in it. Each file is given by its name
/// and its lines, one API name per line.
pub fn group_api_by_file(files: &Vec<(String, Vec<String>)>) -> (r: Vec<(String, Vec<String>)>)
    ensures
        tally_wf(entries_view(r@)),
        forall|a: Seq<char>, f: Seq<char>|
            #![trigger tally_has(entries_view(r@), a, f)]
            tally_has(entries_view(r@), a, f) <==> lists_api(entries_view(files@), a, f),
        forall|a: Seq<char>|
            #![trigger tally_key(entries_view(r@), a)]
            tally_key(entries_view(r@), a) <==> api_listed(entries_view(files@), a),
{
    let ghost fv = entries_view(files@);
    let mut g: Vec<(String, Vec<String>)> = Vec::new();
    let mut i: usize = 0;
    assert(fv.take(0) =~= Seq::<(Seq<char>, Seq<Seq<char>>)>::empty());
    while i < files.len()
        invariant
            i <= files@.len(),
            fv == entries_view(files@),
            tally_wf(entries_view(g@)),
            forall|a: Seq<char>, f: Seq<char>|
                #![trigger tally_has(entries_view(g@), a, f)]
                tally_has(entries_view(g@), a, f) <==> lists_api(fv.take(i as int), a, f),
            forall|a: Seq<char>|
                #![trigger tally_key(entries_view(g@), a)]
                tally_key(entries_view(g@), a) <==> api_listed(fv.take(i as int), a),
        decreases files.len() - i,
    {
        let name = &files[i].0;
        let lines = &files[i].1;
        assert(fv[i as int] == (name@, views(lines@)));
        let mut j: usize = 0;
        assert(views(lines@).take(0) =~= Seq::<Seq<char>>::empty());
        while j < lines.len()
            invariant
                i < files@.len(),
                j <= lines@.len(),
                fv == entries_view(files@),
                fv[i as int] == (name@, views(lines@)),
                tally_wf(entries_view(g@)),
                forall|a: Seq<char>, f: Seq<char>|
                    #![trigger tally_has(entries_view(g@), a, f)]
                    tally_has(entries_view(g@), a, f) <==> (lists_api(fv.take(i as int), a, f) || (f
                        == name@ && views(lines@).take(j as int).contains(a))),
                forall|a: Seq<char>|
                    #![trigger tally_key(entries_view(g@), a)]
                    tally_key(entries_view(g@), a) <==> (api_listed(fv.take(i as int), a) || views(
                        lines@,
                    ).take(j as int).contains(a)),
            decreases lines.len() - j,
        {
            let ghost before = views(lines@).take(j as int);
            add_occurrence(&mut g, &lines[j], name);
            let ghost x = lines@[j as int]@;
            assert(views(lines@).take(j + 1) =~= before.push(x));
            assert forall|a: Seq<char>| #[trigger] before.push(x).contains(a) <==> (before.contains(a) || a == x) by {
                if before.push(x).contains(a) {
                    let t = choose|t: int| 0 <= t < before.len() + 1 && before.push(x)[t] == a;
                    if t < before.len() {
                        assert(before[t] == a);
                    }
                }
                if before.contains(a) {
                    let t = choose|t: int| 0 <= t < before.len() && before[t] == a;
                    assert(before.push(x)[t] == a);
                }
                if a == x {
                    assert(before.push(x)[before.len() as int] == a);
                }
            }
            j = j + 1;
        }
        assert(views(lines@).take(lines.len() as int) =~= views(lines@));
        proof {
            lemma_one_more_file(fv, i as int);
        }
        i = i + 1;
    }
    assert(fv.take(files.len() as int) =~= fv);
    g
}

} // verus!
