//! A Maven reactor: a project and its modules.
use vstd::prelude::*;

use crate::jar_class_map::MvnModule;
use crate::text::{chars_of, owned, split_on, split_str, string_of, views};

verus! {

broadcast use vstd::string::group_string_axioms;

/// `s` up to (not including) its last `c`; `s` itself when it holds no `c`
/// is not asked for.
pub open spec fn before_last(s: Seq<char>, c: char) -> Seq<char>
    decreases s.len(),
{
    if s.len() == 0 {
        s
    } else if s.last() == c {
        s.drop_last()
    } else {
        before_last(s.drop_last(), c)
    }
}

/// The modules a `pwd` listing names: per output line that holds a `/`, the
/// part before its last `/` and the whole line, in order.
pub open spec fn listed_modules(lines: Seq<Seq<char>>) -> Seq<(Seq<char>, Seq<char>)>
    decreases lines.len(),
{
    if lines.len() == 0 {
        Seq::empty()
    } else {
        let p = listed_modules(lines.drop_last());
        if lines.last().contains('/') {
            p.push((before_last(lines.last(), '/'), lines.last()))
        } else {
            p
        }
    }
}

/// The part of `s` before its last `c` (as the first half of `rsplit_once`),
/// or `None` if `s` holds no `c`.
fn split_before_last(s: &str, c: char) -> (r: Option<String>)
    ensures
        s@.contains(c) ==> (r matches Some(x) && x@ == before_last(s@, c)),
        !s@.contains(c) ==> r is None,
{
    let v = chars_of(s);
    let mut i: usize = v.len();
    assert(s@.take(i as int) =~= s@);
    while i > 0
        invariant
            i <= v.len(),
            v@ == s@,
            before_last(s@, c) == before_last(s@.take(i as int), c),
            forall|j: int| i <= j < v@.len() ==> v@[j] != c,
        decreases i,
    {
        assert(s@.take(i as int).drop_last() =~= s@.take(i - 1));
        if v[i - 1] == c {
            let mut out: Vec<char> = Vec::new();
            let mut k: usize = 0;
            while k < i - 1
                invariant
                    k <= i - 1,
                    i <= v.len(),
                    out@ == v@.take(k as int),
                decreases i - 1 - k,
            {
                out.push(v[k]);
                k = k + 1;
                assert(out@ =~= v@.take(k as int));
            }
            assert(s@.contains(c));
            return Some(string_of(&out));
        }
        i = i - 1;
    }
    assert(!s@.contains(c)) by {
        if s@.contains(c) {
            let j = choose|j: int| 0 <= j < s@.len() && s@[j] == c;
            assert(v@[j] == c);
        }
    }
    None
}

/// The modules a `mvn exec:exec -Dexec.executable=pwd` listing names: for
/// each output line holding a `/`, the part before its last `/` (the module
/// name given to `MvnModule`) and the line itself (its path).
pub fn module_locations(stdout: &str) -> (r: Vec<(String, String)>)
    ensures
        r@.len() == listed_modules(split_on(stdout@, '\n')).len(),
        forall|i: int| 0 <= i < r@.len() ==> (#[trigger] r@[i]).0@ == listed_modules(split_on(stdout@, '\n'))[i].0
            && r@[i].1@ == listed_modules(split_on(stdout@, '\n'))[i].1,
{
    let lines = split_str(stdout, '\n');
    let ghost lv = views(lines@);
    let mut r: Vec<(String, String)> = Vec::new();
    let mut i: usize = 0;
    while i < lines.len()
        invariant
            i <= lines.len(),
            lv == views(lines@),
            r@.len() == listed_modules(lv.take(i as int)).len(),
            forall|j: int| 0 <= j < r@.len() ==> (#[trigger] r@[j]).0@ == listed_modules(lv.take(i as int))[j].0
                && r@[j].1@ == listed_modules(lv.take(i as int))[j].1,
        decreases lines.len() - i,
    {
        assert(lv.take(i + 1).drop_last() =~= lv.take(i as int));
        assert(lv.take(i + 1).last() == lines@[i as int]@);
        match split_before_last(lines[i].as_str(), '/') {
            Some(name) => {
                r.push((name, lines[i].clone()));
            },
            None => {},
        }
        i = i + 1;
    }
    assert(lv.take(i as int) =~= lv);
    r
}

/// A Maven project with its modules.
pub struct MvnReactor {
    name: String,
    path: String,
    modules: Vec<MvnModule>,
}

impl MvnReactor {
    pub closed spec fn name_view(&self) -> Seq<char> {
        self.name@
    }

    pub closed spec fn path_view(&self) -> Seq<char> {
        self.path@
    }

    pub closed spec fn modules_view(&self) -> Seq<MvnModule> {
        self.modules@
    }

    /// A project with the given name, path and modules.
    pub fn from_modules(name: &str, path: &str, modules: Vec<MvnModule>) -> (r: MvnReactor)
        ensures
            r.name_view() == name@,
            r.path_view() == path@,
            r.modules_view() == modules@,
    {
        MvnReactor { name: owned(name), path: owned(path), modules }
    }

    pub fn name(&self) -> (r: &str)
        ensures
            r@ == self.name_view(),
    {
        self.name.as_str()
    }

    pub fn path(&self) -> (r: &str)
        ensures
            r@ == self.path_view(),
    {
        self.path.as_str()
    }

    pub fn modules(&self) -> (r: &Vec<MvnModule>)
        ensures
            r@ == self.modules_view(),
    {
        &self.modules
    }

    pub fn get_modules_mutable(&mut self) -> (r: &mut Vec<MvnModule>)
        ensures
            r@ == old(self).modules_view(),
            final(self).name_view() == old(self).name_view(),
            final(self).path_view() == old(self).path_view(),
            final(self).modules_view() == final(r)@,
    {
        &mut self.modules
    }
}

} // verus!
