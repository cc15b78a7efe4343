//! Which Maven artifact each class of a dependency jar belongs to.
//!
//! Reading jars and walking their contents happens outside the library; the
//! decisions (reading `pom.properties` and `MANIFEST.MF` lines, choosing the
//! artifact a class path belongs to, grouping classes by artifact) are here.
use vstd::prelude::*;

use crate::pomdep::{coord_views, dedup, default_coord, id_list, push_coord_if_new, MvnCoord};
use crate::text::{
    ends_with, first_index, has_prefix, has_suffix, lemma_first_index_found, lemma_replace_char_drops, lemma_first_index_prefix, lemma_first_index_step, owned,
    contains_string, replace_char, replace_char_str, split_on, split_str, str_eq, views,
};

verus! {

broadcast use vstd::string::group_string_axioms;

/// A coordinate view: (group, artifact, version).
pub type CoordView = (Seq<char>, Seq<char>, Seq<char>);

/// The coordinate after one line of a `pom.properties` file: comment lines
/// (starting with `#`) change nothing; `version=`, `groupId=` and
/// `artifactId=` set that part; other keys change nothing.
pub open spec fn pom_line_step(c: CoordView, line: Seq<char>) -> CoordView {
    if has_prefix(line, "#"@) {
        c
    } else {
        let x = split_on(line, '=');
        if x[0] == "version"@ {
            (c.0, c.1, x[1])
        } else if x[0] == "groupId"@ {
            (x[1], c.1, c.2)
        } else if x[0] == "artifactId"@ {
            (c.0, x[1], c.2)
        } else {
            c
        }
    }
}

/// A `pom.properties` line that sets a part has a value after its `=`.
pub open spec fn pom_line_readable(line: Seq<char>) -> bool {
    let x = split_on(line, '=');
    !has_prefix(line, "#"@) && (x[0] == "version"@ || x[0] == "groupId"@ || x[0] == "artifactId"@) ==> x.len()
        >= 2
}

/// The coordinate a `pom.properties` file gives, from the default one.
pub open spec fn pom_coord(lines: Seq<Seq<char>>) -> CoordView
    decreases lines.len(),
{
    if lines.len() == 0 {
        default_coord()
    } else {
        pom_line_step(pom_coord(lines.drop_last()), lines.last())
    }
}

/// The coordinate after one line of a `MANIFEST.MF` file: an
/// `Implementation-Title: ` line sets the artifact; other lines change
/// nothing.
pub open spec fn manifest_line_step(c: CoordView, line: Seq<char>) -> CoordView {
    if has_prefix(line, "#"@) {
        c
    } else {
        let x = split_on(line, ':');
        if x[0] == "Implementation-Title"@ {
            (c.0, x[1].skip(1), c.2)
        } else {
            c
        }
    }
}

/// An `Implementation-Title` line has a value after `: `.
pub open spec fn manifest_line_readable(line: Seq<char>) -> bool {
    let x = split_on(line, ':');
    !has_prefix(line, "#"@) && x[0] == "Implementation-Title"@ ==> x.len() >= 2 && has_prefix(x[1], " "@)
}

/// The coordinate a `MANIFEST.MF` file gives, from the default one.
pub open spec fn manifest_coord(lines: Seq<Seq<char>>) -> CoordView
    decreases lines.len(),
{
    if lines.len() == 0 {
        default_coord()
    } else {
        manifest_line_step(manifest_coord(lines.drop_last()), lines.last())
    }
}

/// How well a coordinate matches a class path: the number of distinct
/// coordinate elements (see `id_list`) that are also `/`-separated
/// elements of the path.
pub open spec fn match_score(c: CoordView, class_path: Seq<char>) -> nat {
    id_list(c).to_set().intersect(split_on(class_path, '/').to_set()).len()
}

/// The index of the candidate a class path is assigned to: the last one
/// with the highest score.
pub open spec fn is_best_match(cands: Seq<CoordView>, class_path: Seq<char>, k: int) -> bool {
    &&& 0 <= k < cands.len()
    &&& forall|j: int| 0 <= j < cands.len() ==> match_score(#[trigger] cands[j], class_path) <= match_score(
        cands[k],
        class_path,
    )
    &&& forall|j: int| k < j < cands.len() ==> match_score(#[trigger] cands[j], class_path) < match_score(
        cands[k],
        class_path,
    )
}

/// The class file path can be turned into a class name: with `/` read as
/// `.`, it ends with `.class`.
pub open spec fn is_class_path(path: Seq<char>) -> bool {
    has_suffix(replace_char(path, '/', "."@), ".class"@)
}

/// The class name of a class file path: `/` becomes `.`, and the `.class`
/// suffix goes.
pub open spec fn class_name_of(path: Seq<char>) -> Seq<char> {
    let d = replace_char(path, '/', "."@);
    d.subrange(0, d.len() - 6)
}

/// The score of `c` against the elements of a class path.
fn score(c: &MvnCoord, path_elements: &Vec<String>) -> (r: usize)
    ensures
        r == id_list(c@).to_set().intersect(views(path_elements@).to_set()).len(),
{
    let ids = c.build_id_list();
    let ghost idv = views(ids@);
    let ghost pset = views(path_elements@).to_set();
    let mut seen: Vec<String> = Vec::new();
    let mut i: usize = 0;
    while i < ids.len()
        invariant
            i <= ids.len(),
            idv == views(ids@),
            idv == id_list(c@),
            pset == views(path_elements@).to_set(),
            views(seen@).no_duplicates(),
            views(seen@).to_set() == idv.take(i as int).to_set().intersect(pset),
        decreases ids.len() - i,
    {
        let id = &ids[i];
        proof {
            assert(idv.take(i + 1) =~= idv.take(i as int).push(id@));
            idv.take(i as int).lemma_push_to_set_commute(id@);
        }
        if contains_string(path_elements, id.as_str()) && !contains_string(&seen, id.as_str()) {
            let ghost before = seen@;
            seen.push(id.clone());
            proof {
                assert(views(seen@) =~= views(before).push(id@));
                views(before).lemma_push_to_set_commute(id@);
                assert forall|a: int, b: int| 0 <= a < b < views(seen@).len() implies views(seen@)[a] != views(seen@)[b] by {
                    if b == views(before).len() {
                        assert(views(before).contains(views(before)[a]));
                    }
                }
                assert(views(seen@).to_set() =~= idv.take(i + 1).to_set().intersect(pset));
            }
        } else {
            proof {
                assert(views(seen@).to_set() =~= idv.take(i + 1).to_set().intersect(pset));
            }
        }
        i = i + 1;
    }
    proof {
        assert(idv.take(i as int) =~= idv);
        views(seen@).unique_seq_to_set();
    }
    seen.len()
}

/// A dependency jar: its name and, per artifact found in it, the classes
/// that belong to that artifact.
pub struct Jar {
    name: String,
    artifacts: Vec<(MvnCoord, Vec<String>)>,
}

/// The views of a jar's artifact table.
pub open spec fn table_view(t: Seq<(MvnCoord, Vec<String>)>) -> Seq<(CoordView, Seq<Seq<char>>)> {
    t.map_values(|e: (MvnCoord, Vec<String>)| (e.0@, views(e.1@)))
}

/// The index of `c` among the table's artifacts, if it is there.
pub open spec fn key_index(t: Seq<(CoordView, Seq<Seq<char>>)>, c: CoordView) -> Option<int> {
    first_index(t, key_is(c))
}

/// The entry is that of artifact `c`.
pub open spec fn key_is(c: CoordView) -> spec_fn((CoordView, Seq<Seq<char>>)) -> bool {
    |e: (CoordView, Seq<Seq<char>>)| e.0 == c
}

/// The table after assigning a class name to artifact `c`: appended to
/// that artifact's classes, or a new entry for `c` at the end.
pub open spec fn table_add(t: Seq<(CoordView, Seq<Seq<char>>)>, c: CoordView, name: Seq<char>) -> Seq<(CoordView, Seq<Seq<char>>)> {
    match key_index(t, c) {
        Some(k) => t.update(k, (c, t[k].1.push(name))),
        None => t.push((c, seq![name])),
    }
}

/// The table built from class paths: each class path whose best match
/// exists is added, as a class name, to that artifact.
pub open spec fn class_table(cands: Seq<CoordView>, paths: Seq<Seq<char>>) -> Seq<(CoordView, Seq<Seq<char>>)>
    decreases paths.len(),
{
    if paths.len() == 0 {
        Seq::empty()
    } else {
        let t = class_table(cands, paths.drop_last());
        if cands.len() == 0 {
            t
        } else {
            let k = choose|k: int| is_best_match(cands, paths.last(), k);
            table_add(t, cands[k], class_name_of(paths.last()))
        }
    }
}

proof fn lemma_best_match_unique(cands: Seq<CoordView>, p: Seq<char>, a: int, b: int)
    requires
        is_best_match(cands, p, a),
        is_best_match(cands, p, b),
    ensures
        a == b,
{
    if a < b {
        assert(match_score(cands[b], p) < match_score(cands[a], p));
    } else if b < a {
        assert(match_score(cands[a], p) < match_score(cands[b], p));
    }
}

/// `c` scores at least as well as every candidate on class path `p`.
pub open spec fn is_best_coord(cands: Seq<CoordView>, p: Seq<char>, c: CoordView) -> bool {
    forall|j: int| 0 <= j < cands.len() ==> match_score(#[trigger] cands[j], p) <= match_score(c, p)
}

/// What a class table built from candidates and class paths promises: each
/// artifact (a candidate) has one entry and at least one class; every class
/// name holds no `/` and comes from a class path on which its artifact
/// scores at least as well as every candidate.
pub open spec fn best_overlap_table(
    cands: Seq<CoordView>,
    paths: Seq<Seq<char>>,
    t: Seq<(CoordView, Seq<Seq<char>>)>,
) -> bool {
    &&& forall|i: int, j: int| 0 <= i < j < t.len() ==> (#[trigger] t[i]).0 != (#[trigger] t[j]).0
    &&& forall|i: int| 0 <= i < t.len() ==> cands.contains((#[trigger] t[i]).0) && t[i].1.len() > 0
    &&& forall|i: int, x: Seq<char>|
        0 <= i < t.len() && (#[trigger] t[i].1.contains(x)) ==> !x.contains('/') && exists|p: Seq<char>|
            #[trigger] paths.contains(p) && class_name_of(p) == x && is_best_coord(cands, p, t[i].0)
}

/// The index `key_index` finds holds `c`; without one, no entry does.
proof fn lemma_key_index_found(t: Seq<(CoordView, Seq<Seq<char>>)>, c: CoordView)
    ensures
        match key_index(t, c) {
            Some(m) => 0 <= m < t.len() && t[m].0 == c,
            None => forall|j: int| 0 <= j < t.len() ==> (#[trigger] t[j]).0 != c,
        },
{
    lemma_first_index_found(t, key_is(c));
}

/// Among non-empty candidates, some index is the best match of a path.
proof fn lemma_best_match_exists(cands: Seq<CoordView>, p: Seq<char>)
    requires
        cands.len() > 0,
    ensures
        exists|k: int| is_best_match(cands, p, k),
    decreases cands.len(),
{
    let n = cands.len() - 1;
    if n == 0 {
        assert(is_best_match(cands, p, 0));
    } else {
        let c = cands.drop_last();
        lemma_best_match_exists(c, p);
        let k = choose|k: int| is_best_match(c, p, k);
        assert(forall|j: int| 0 <= j < n ==> cands[j] == c[j]);
        if match_score(cands[n], p) >= match_score(c[k], p) {
            assert(is_best_match(cands, p, n));
        } else {
            assert(is_best_match(cands, p, k));
        }
    }
}

/// A class name holds no `/`.
proof fn lemma_class_name_has_no_slash(path: Seq<char>)
    requires
        is_class_path(path),
    ensures
        !class_name_of(path).contains('/'),
{
    reveal_strlit(".");
    reveal_strlit(".class");
    let d = replace_char(path, '/', "."@);
    assert(!"."@.contains('/')) by {
        if "."@.contains('/') {
            let i = choose|i: int| 0 <= i < "."@.len() && "."@[i] == '/';
        }
    }
    lemma_replace_char_drops(path, '/', "."@);
    let x = class_name_of(path);
    if x.contains('/') {
        let i = choose|i: int| 0 <= i < x.len() && x[i] == '/';
        assert(d[i] == '/');
    }
}

/// The class table of a jar keeps its promise (see `best_overlap_table`):
/// every class goes to the artifact whose elements overlap its path's
/// elements most.
pub proof fn lemma_class_table_best_overlap(cands: Seq<CoordView>, paths: Seq<Seq<char>>)
    requires
        cands.len() > 0 ==> forall|i: int| 0 <= i < paths.len() ==> is_class_path(#[trigger] paths[i]),
    ensures
        best_overlap_table(cands, paths, class_table(cands, paths)),
    decreases paths.len(),
{
    if paths.len() > 0 {
        let q = paths.drop_last();
        assert forall|i: int| 0 <= i < q.len() implies (cands.len() > 0 ==> is_class_path(#[trigger] q[i])) by {
            assert(q[i] == paths[i]);
        }
        lemma_class_table_best_overlap(cands, q);
        let t = class_table(cands, q);
        assert forall|p: Seq<char>| #[trigger] q.contains(p) implies paths.contains(p) by {
            let i = choose|i: int| 0 <= i < q.len() && q[i] == p;
            assert(paths[i] == p);
        }
        if cands.len() > 0 {
            let p = paths.last();
            lemma_best_match_exists(cands, p);
            let k = choose|k: int| is_best_match(cands, p, k);
            let c = cands[k];
            let name = class_name_of(p);
            assert(paths[paths.len() - 1] == p);
            assert(paths.contains(p));
            assert(is_best_coord(cands, p, c));
            lemma_class_name_has_no_slash(p);
            lemma_key_index_found(t, c);
            let nt = class_table(cands, paths);
            assert(nt == table_add(t, c, name));
            match key_index(t, c) {
                Some(m) => {
                    assert(t[m].0 == c);
                    assert(nt == t.update(m, (c, t[m].1.push(name))));
                    assert forall|i: int, x: Seq<char>|
                        0 <= i < nt.len() && (#[trigger] nt[i].1.contains(x)) implies !x.contains('/')
                        && exists|pp: Seq<char>| #[trigger] paths.contains(pp) && class_name_of(pp) == x
                        && is_best_coord(cands, pp, nt[i].0) by {
                        if i != m || x != name {
                            assert(t[i].1.contains(x)) by {
                                if i == m {
                                    let j = choose|j: int| 0 <= j < nt[i].1.len() && nt[i].1[j] == x;
                                    assert(t[i].1[j] == x);
                                }
                            }
                            let pp = choose|pp: Seq<char>| #[trigger] q.contains(pp) && class_name_of(pp) == x
                                && is_best_coord(cands, pp, t[i].0);
                            assert(paths.contains(pp));
                        } else {
                            assert(paths.contains(p));
                        }
                    }
                    assert forall|i: int| 0 <= i < nt.len() implies cands.contains((#[trigger] nt[i]).0)
                        && nt[i].1.len() > 0 by {
                        assert(t[i].0 == nt[i].0);
                    }
                    assert forall|i: int, j: int| 0 <= i < j < nt.len() implies (#[trigger] nt[i]).0
                        != (#[trigger] nt[j]).0 by {
                        assert(t[i].0 == nt[i].0 && t[j].0 == nt[j].0);
                    }
                },
                None => {
                    assert(nt == t.push((c, seq![name])));
                    assert forall|i: int, x: Seq<char>|
                        0 <= i < nt.len() && (#[trigger] nt[i].1.contains(x)) implies !x.contains('/')
                        && exists|pp: Seq<char>| #[trigger] paths.contains(pp) && class_name_of(pp) == x
                        && is_best_coord(cands, pp, nt[i].0) by {
                        if i < t.len() {
                            assert(nt[i] == t[i]);
                            let pp = choose|pp: Seq<char>| #[trigger] q.contains(pp) && class_name_of(pp) == x
                                && is_best_coord(cands, pp, t[i].0);
                            assert(paths.contains(pp));
                        } else {
                            assert(seq![name][0] == name);
                            assert(paths.contains(p));
                        }
                    }
                    assert forall|i: int| 0 <= i < nt.len() implies cands.contains((#[trigger] nt[i]).0)
                        && nt[i].1.len() > 0 by {
                        if i < t.len() {
                            assert(nt[i] == t[i]);
                        } else {
                            assert(cands[k] == c);
                        }
                    }
                    assert forall|i: int, j: int| 0 <= i < j < nt.len() implies (#[trigger] nt[i]).0
                        != (#[trigger] nt[j]).0 by {
                        if j == t.len() {
                            assert(t[i].0 != c);
                        } else {
                            assert(nt[i] == t[i] && nt[j] == t[j]);
                        }
                    }
                },
            }
        } else {
            let nt = class_table(cands, paths);
            assert(nt == t);
            assert forall|i: int, x: Seq<char>|
                0 <= i < nt.len() && (#[trigger] nt[i].1.contains(x)) implies !x.contains('/')
                && exists|pp: Seq<char>| #[trigger] paths.contains(pp) && class_name_of(pp) == x
                && is_best_coord(cands, pp, nt[i].0) by {
                let pp = choose|pp: Seq<char>| #[trigger] q.contains(pp) && class_name_of(pp) == x
                    && is_best_coord(cands, pp, t[i].0);
                assert(paths.contains(pp));
            }
        }
    }
}

/// A `key=value` line with a value free of `=` splits into the key and the
/// value.
proof fn lemma_split_key_value(key: Seq<char>, v: Seq<char>, sep: char)
    requires
        !key.contains(sep),
        !v.contains(sep),
    ensures
        split_on(key + seq![sep] + v, sep) == seq![key, v],
{
    crate::text::lemma_split_first_piece(key, v, sep);
    crate::text::lemma_split_no_sep(v, sep);
    assert(seq![key] + seq![v] =~= seq![key, v]);
}

/// Every line of a `pom.properties` file is read, the last one too: a final
/// `version=`, `groupId=` or `artifactId=` line sets that part to its value
/// and keeps the others; a final comment line changes nothing.
pub proof fn lemma_pom_last_line_counts(ls: Seq<Seq<char>>, v: Seq<char>, comment: Seq<char>)
    requires
        !v.contains('='),
        has_prefix(comment, "#"@),
    ensures
        pom_coord(ls.push("version="@ + v)) == (pom_coord(ls).0, pom_coord(ls).1, v),
        pom_coord(ls.push("groupId="@ + v)) == (v, pom_coord(ls).1, pom_coord(ls).2),
        pom_coord(ls.push("artifactId="@ + v)) == (pom_coord(ls).0, v, pom_coord(ls).2),
        pom_coord(ls.push(comment)) == pom_coord(ls),
{
    reveal_strlit("version=");
    reveal_strlit("groupId=");
    reveal_strlit("artifactId=");
    reveal_strlit("version");
    reveal_strlit("groupId");
    reveal_strlit("artifactId");
    reveal_strlit("#");
    let kv = "version"@;
    let kg = "groupId"@;
    let ka = "artifactId"@;
    assert(!kv.contains('=')) by {
        if kv.contains('=') {
            let i = choose|i: int| 0 <= i < kv.len() && kv[i] == '=';
        }
    }
    assert(!kg.contains('=')) by {
        if kg.contains('=') {
            let i = choose|i: int| 0 <= i < kg.len() && kg[i] == '=';
        }
    }
    assert(!ka.contains('=')) by {
        if ka.contains('=') {
            let i = choose|i: int| 0 <= i < ka.len() && ka[i] == '=';
        }
    }
    let lv = "version="@ + v;
    let lg = "groupId="@ + v;
    let la = "artifactId="@ + v;
    assert(lv =~= kv + seq!['='] + v);
    assert(lg =~= kg + seq!['='] + v);
    assert(la =~= ka + seq!['='] + v);
    lemma_split_key_value(kv, v, '=');
    lemma_split_key_value(kg, v, '=');
    lemma_split_key_value(ka, v, '=');
    assert(!has_prefix(lv, "#"@)) by {
        assert(lv[0] == 'v');
        assert(lv.subrange(0, 1)[0] == lv[0]);
        assert("#"@[0] == '#');
    }
    assert(!has_prefix(lg, "#"@)) by {
        assert(lg[0] == 'g');
        assert(lg.subrange(0, 1)[0] == lg[0]);
        assert("#"@[0] == '#');
    }
    assert(!has_prefix(la, "#"@)) by {
        assert(la[0] == 'a');
        assert(la.subrange(0, 1)[0] == la[0]);
        assert("#"@[0] == '#');
    }
    assert(ls.push(lv).drop_last() =~= ls);
    assert(ls.push(lg).drop_last() =~= ls);
    assert(ls.push(la).drop_last() =~= ls);
    assert(ls.push(comment).drop_last() =~= ls);
    assert(kv != kg && kv != ka && kg != ka) by {
        assert(kv[0] != kg[0]);
        assert(kv[0] != ka[0]);
        assert(kg[0] != ka[0]);
    }
}

/// Every line of a `MANIFEST.MF` file is read, the last one too: a final
/// `Implementation-Title: t` line sets the artifact to `t` and keeps the
/// rest; a final comment line changes nothing.
pub proof fn lemma_manifest_last_line_counts(ls: Seq<Seq<char>>, t: Seq<char>, comment: Seq<char>)
    requires
        !t.contains(':'),
        has_prefix(comment, "#"@),
    ensures
        manifest_coord(ls.push("Implementation-Title: "@ + t)) == (manifest_coord(ls).0, t, manifest_coord(ls).2),
        manifest_coord(ls.push(comment)) == manifest_coord(ls),
{
    reveal_strlit("Implementation-Title: ");
    reveal_strlit("Implementation-Title");
    reveal_strlit("#");
    let k = "Implementation-Title"@;
    assert(!k.contains(':')) by {
        if k.contains(':') {
            let i = choose|i: int| 0 <= i < k.len() && k[i] == ':';
        }
    }
    let v = seq![' '] + t;
    assert(!v.contains(':')) by {
        if v.contains(':') {
            let i = choose|i: int| 0 <= i < v.len() && v[i] == ':';
            if i > 0 {
                assert(t[i - 1] == ':');
            }
        }
    }
    let l = "Implementation-Title: "@ + t;
    assert(l =~= k + seq![':'] + v);
    lemma_split_key_value(k, v, ':');
    assert(v.skip(1) =~= t);
    assert(!has_prefix(l, "#"@)) by {
        assert(l[0] == 'I');
        assert(l.subrange(0, 1)[0] == l[0]);
        assert("#"@[0] == '#');
    }
    assert(ls.push(l).drop_last() =~= ls);
    assert(ls.push(comment).drop_last() =~= ls);
}

/// Adding a class keeps every entry and its classes, and files the class
/// under an entry for its artifact.
proof fn lemma_table_add_keeps(t: Seq<(CoordView, Seq<Seq<char>>)>, c: CoordView, name: Seq<char>)
    ensures
        table_add(t, c, name).len() >= t.len(),
        forall|i: int| 0 <= i < t.len() ==> (#[trigger] table_add(t, c, name)[i]).0 == t[i].0,
        forall|i: int, x: Seq<char>|
            0 <= i < t.len() && (#[trigger] t[i].1.contains(x)) ==> table_add(t, c, name)[i].1.contains(x),
        exists|i: int|
            0 <= i < table_add(t, c, name).len() && (#[trigger] table_add(t, c, name)[i]).0 == c
                && table_add(t, c, name)[i].1.contains(name),
{
    lemma_key_index_found(t, c);
    let nt = table_add(t, c, name);
    match key_index(t, c) {
        Some(m) => {
            assert forall|i: int, x: Seq<char>| 0 <= i < t.len() && (#[trigger] t[i].1.contains(x)) implies nt[i].1.contains(x) by {
                if i == m {
                    let k = choose|k: int| 0 <= k < t[i].1.len() && t[i].1[k] == x;
                    assert(nt[i].1[k] == x);
                }
            }
            assert(nt[m].1[t[m].1.len() as int] == name);
            assert(nt[m].1.contains(name));
        },
        None => {
            assert(forall|i: int| 0 <= i < t.len() ==> nt[i] == t[i]);
            assert(nt[t.len() as int].1[0] == name);
            assert(nt[t.len() as int].1.contains(name));
        },
    }
}

/// No class is lost: with at least one candidate, the class of every class
/// path is filed under an artifact that overlaps that path at least as well
/// as every candidate (a best score of 0 included).
pub proof fn lemma_class_table_complete(cands: Seq<CoordView>, paths: Seq<Seq<char>>, j: int)
    requires
        cands.len() > 0,
        0 <= j < paths.len(),
    ensures
        exists|i: int|
            0 <= i < class_table(cands, paths).len() && (#[trigger] class_table(cands, paths)[i]).1.contains(
                class_name_of(paths[j]),
            ) && is_best_coord(cands, paths[j], class_table(cands, paths)[i].0),
    decreases paths.len(),
{
    let q = paths.drop_last();
    let t = class_table(cands, q);
    let p = paths.last();
    lemma_best_match_exists(cands, p);
    let k = choose|k: int| is_best_match(cands, p, k);
    let c = cands[k];
    let name = class_name_of(p);
    let nt = class_table(cands, paths);
    assert(nt == table_add(t, c, name));
    lemma_table_add_keeps(t, c, name);
    if j == paths.len() - 1 {
        let i = choose|i: int| 0 <= i < nt.len() && (#[trigger] nt[i]).0 == c && nt[i].1.contains(name);
        assert(is_best_coord(cands, p, c));
        assert(nt[i].1.contains(class_name_of(paths[j])) && is_best_coord(cands, paths[j], nt[i].0));
    } else {
        lemma_class_table_complete(cands, q, j);
        assert(q[j] == paths[j]);
        let i = choose|i: int| 0 <= i < t.len() && (#[trigger] t[i]).1.contains(class_name_of(q[j]))
            && is_best_coord(cands, q[j], t[i].0);
        assert(nt[i].0 == t[i].0);
        assert(nt[i].1.contains(class_name_of(paths[j])));
    }
}

/// The class name of a class file path is the path with `/` read as `.`,
/// less its `.class` suffix, and holds no `/`.
pub proof fn lemma_class_name_of_path(path: Seq<char>)
    requires
        is_class_path(path),
    ensures
        class_name_of(path) + ".class"@ == replace_char(path, '/', "."@),
        !class_name_of(path).contains('/'),
{
    reveal_strlit(".class");
    let d = replace_char(path, '/', "."@);
    assert(class_name_of(path) + ".class"@ =~= d);
    lemma_class_name_has_no_slash(path);
}

impl Jar {
    pub closed spec fn name_view(&self) -> Seq<char> {
        self.name@
    }

    pub closed spec fn artifacts_view(&self) -> Seq<(CoordView, Seq<Seq<char>>)> {
        table_view(self.artifacts@)
    }

    /// Each artifact has one entry: the table is a map keyed by coordinate.
    #[verifier::type_invariant]
    spec fn keys_distinct(&self) -> bool {
        forall|i: int, j: int| 0 <= i < j < self.artifacts@.len() ==> (#[trigger] self.artifacts@[i]).0@
            != (#[trigger] self.artifacts@[j]).0@
    }

    /// The jar with the given name whose class file paths are assigned to the
    /// candidate coordinates they overlap most (see `assign_classes`): each
    /// artifact has one entry, and every class goes to a best-overlapping
    /// candidate (see `best_overlap_table`).
    pub fn new(name: String, found_coords: &Vec<MvnCoord>, classes: &Vec<String>) -> (r: Jar)
        requires
            found_coords@.len() > 0 ==> forall|i: int| 0 <= i < classes@.len() ==> is_class_path(#[trigger] classes@[i]@),
        ensures
            r.name_view() == name@,
            r.artifacts_view() == class_table(coord_views(found_coords@), views(classes@)),
            best_overlap_table(coord_views(found_coords@), views(classes@), r.artifacts_view()),
    {
        let artifacts = Jar::assign_classes(found_coords, classes);
        proof {
            let cv = coord_views(found_coords@);
            let pv = views(classes@);
            assert forall|i: int| 0 <= i < pv.len() implies (cv.len() > 0 ==> is_class_path(#[trigger] pv[i])) by {
                assert(pv[i] == classes@[i]@);
            }
            lemma_class_table_best_overlap(cv, pv);
            let t = table_view(artifacts@);
            assert forall|i: int, j: int| 0 <= i < j < artifacts@.len() implies (#[trigger] artifacts@[i]).0@
                != (#[trigger] artifacts@[j]).0@ by {
                assert(t[i].0 != t[j].0);
            }
        }
        Jar { name, artifacts }
    }

    pub fn name(&self) -> (r: &str)
        ensures
            r@ == self.name_view(),
    {
        self.name.as_str()
    }

    pub fn artifacts(&self) -> (r: &Vec<(MvnCoord, Vec<String>)>)
        ensures
            table_view(r@) == self.artifacts_view(),
    {
        &self.artifacts
    }

    /// The coordinate given by the lines of a `pom.properties` file, from
    /// the default coordinate.
    pub fn read_pom_properties(lines: &Vec<String>) -> (r: MvnCoord)
        requires
            forall|i: int| 0 <= i < lines@.len() ==> pom_line_readable(#[trigger] lines@[i]@),
        ensures
            r@ == pom_coord(views(lines@)),
    {
        let mut coord = MvnCoord::default();
        let mut i: usize = 0;
        while i < lines.len()
            invariant
                i <= lines.len(),
                forall|i: int| 0 <= i < lines@.len() ==> pom_line_readable(#[trigger] lines@[i]@),
                coord@ == pom_coord(views(lines@).take(i as int)),
            decreases lines.len() - i,
        {
            let l = &lines[i];
            assert(views(lines@).take(i + 1).drop_last() =~= views(lines@).take(i as int));
            assert(views(lines@).take(i + 1).last() == l@);
            assert(pom_line_readable(lines@[i as int]@));
            if !crate::text::starts_with(l.as_str(), "#") {
                let x = split_str(l.as_str(), '=');
                proof {
                    crate::text::lemma_split_nonempty(l@, '=');
                }
                if str_eq(x[0].as_str(), "version") {
                    coord.set_version_id(x[1].clone());
                } else if str_eq(x[0].as_str(), "groupId") {
                    coord.set_group_id(x[1].clone());
                } else if str_eq(x[0].as_str(), "artifactId") {
                    coord.set_artifact_id(x[1].clone());
                }
            }
            i = i + 1;
        }
        assert(views(lines@).take(i as int) =~= views(lines@));
        coord
    }

    /// Whether a `pom.properties` line can be read (see `pom_line_readable`).
    pub fn pom_line_is_readable(line: &str) -> (r: bool)
        ensures
            r == pom_line_readable(line@),
    {
        if crate::text::starts_with(line, "#") {
            return true;
        }
        let x = split_str(line, '=');
        proof {
            crate::text::lemma_split_nonempty(line@, '=');
        }
        if str_eq(x[0].as_str(), "version") || str_eq(x[0].as_str(), "groupId") || str_eq(
            x[0].as_str(),
            "artifactId",
        ) {
            x.len() >= 2
        } else {
            true
        }
    }

    /// Whether a `MANIFEST.MF` line can be read (see
    /// `manifest_line_readable`).
    pub fn manifest_line_is_readable(line: &str) -> (r: bool)
        ensures
            r == manifest_line_readable(line@),
    {
        if crate::text::starts_with(line, "#") {
            return true;
        }
        let x = split_str(line, ':');
        proof {
            crate::text::lemma_split_nonempty(line@, ':');
        }
        if str_eq(x[0].as_str(), "Implementation-Title") {
            x.len() >= 2 && crate::text::starts_with(x[1].as_str(), " ")
        } else {
            true
        }
    }

    /// The coordinate given by the lines of a `MANIFEST.MF` file, from the
    /// default coordinate: only the artifact can change.
    pub fn read_manifest(lines: &Vec<String>) -> (r: MvnCoord)
        requires
            forall|i: int| 0 <= i < lines@.len() ==> manifest_line_readable(#[trigger] lines@[i]@),
        ensures
            r@ == manifest_coord(views(lines@)),
    {
        let mut coord = MvnCoord::default();
        let mut i: usize = 0;
        while i < lines.len()
            invariant
                i <= lines.len(),
                forall|i: int| 0 <= i < lines@.len() ==> manifest_line_readable(#[trigger] lines@[i]@),
                coord@ == manifest_coord(views(lines@).take(i as int)),
            decreases lines.len() - i,
        {
            let l = &lines[i];
            assert(views(lines@).take(i + 1).drop_last() =~= views(lines@).take(i as int));
            assert(views(lines@).take(i + 1).last() == l@);
            assert(manifest_line_readable(lines@[i as int]@));
            if !crate::text::starts_with(l.as_str(), "#") {
                let x = split_str(l.as_str(), ':');
                proof {
                    crate::text::lemma_split_nonempty(l@, ':');
                }
                if str_eq(x[0].as_str(), "Implementation-Title") {
                    proof {
                        reveal_strlit(" ");
                    }
                    let v = crate::text::chars_of(x[1].as_str());
                    let rest = skip_first(&v);
                    coord.set_artifact_id(rest);
                }
            }
            i = i + 1;
        }
        assert(views(lines@).take(i as int) =~= views(lines@));
        coord
    }

    /// The candidate that a class path belongs to: the one whose elements
    /// share the most with the path's elements, the last such one on a tie;
    /// `None` when there are no candidates.
    pub fn match_coord<'a>(candidates: &'a Vec<MvnCoord>, class_path: &str) -> (r: Option<&'a MvnCoord>)
        ensures
            candidates@.len() == 0 ==> r is None,
            candidates@.len() > 0 ==> exists|k: int| #[trigger] is_best_match(coord_views(candidates@), class_path@, k)
                && r == Some(&candidates@[k]),
    {
        let path_elements = split_str(class_path, '/');
        let ghost cv = coord_views(candidates@);
        let mut max: usize = 0;
        let mut chosen: Option<&'a MvnCoord> = None;
        let mut k: usize = 0;
        let mut i: usize = 0;
        while i < candidates.len()
            invariant
                i <= candidates.len(),
                cv == coord_views(candidates@),
                views(path_elements@) == split_on(class_path@, '/'),
                i == 0 ==> chosen is None && max == 0,
                i > 0 ==> k < i && chosen == Some(&candidates@[k as int]) && max == match_score(cv[k as int], class_path@),
                forall|j: int| 0 <= j < i ==> match_score(#[trigger] cv[j], class_path@) <= max,
                forall|j: int| k < j < i ==> match_score(#[trigger] cv[j], class_path@) < max,
            decreases candidates.len() - i,
        {
            let s = score(&candidates[i], &path_elements);
            assert(s == match_score(cv[i as int], class_path@));
            if s >= max {
                max = s;
                chosen = Some(&candidates[i]);
                k = i;
            }
            i = i + 1;
        }
        proof {
            if candidates@.len() > 0 {
                assert(is_best_match(cv, class_path@, k as int));
            }
        }
        chosen
    }

    /// The artifact table for a jar's class file paths: each path that has a
    /// matching candidate becomes a class name under that artifact; artifacts
    /// appear in the order they are first matched.
    pub fn assign_classes(found_coords: &Vec<MvnCoord>, classes: &Vec<String>) -> (r: Vec<(MvnCoord, Vec<String>)>)
        requires
            found_coords@.len() > 0 ==> forall|i: int| 0 <= i < classes@.len() ==> is_class_path(#[trigger] classes@[i]@),
        ensures
            table_view(r@) == class_table(coord_views(found_coords@), views(classes@)),
    {
        let ghost cv = coord_views(found_coords@);
        let mut results: Vec<(MvnCoord, Vec<String>)> = Vec::new();
        let mut i: usize = 0;
        while i < classes.len()
            invariant
                i <= classes.len(),
                cv == coord_views(found_coords@),
                found_coords@.len() > 0 ==> forall|i: int| 0 <= i < classes@.len() ==> is_class_path(#[trigger] classes@[i]@),
                table_view(results@) == class_table(cv, views(classes@).take(i as int)),
            decreases classes.len() - i,
        {
            let clazz = &classes[i];
            assert(views(classes@).take(i + 1).drop_last() =~= views(classes@).take(i as int));
            assert(views(classes@).take(i + 1).last() == clazz@);
            match Jar::match_coord(found_coords, clazz.as_str()) {
                Some(c) => {
                    assert(is_class_path(classes@[i as int]@));
                    let class_name = class_name_from_path(clazz.as_str());
                    proof {
                        let k = choose|k: int| is_best_match(cv, clazz@, k) && Some(c) == Some(&found_coords@[k]);
                        let k2 = choose|k: int| is_best_match(cv, clazz@, k);
                        lemma_best_match_unique(cv, clazz@, k, k2);
                        assert(cv[k] == c@);
                    }
                    add_class(&mut results, c, class_name);
                },
                None => {},
            }
            i = i + 1;
        }
        assert(views(classes@).take(i as int) =~= views(classes@));
        results
    }
}

/// The characters after the first, as a `String`.
fn skip_first(v: &Vec<char>) -> (r: String)
    requires
        v@.len() >= 1,
    ensures
        r@ == v@.skip(1),
{
    let mut out: Vec<char> = Vec::new();
    let mut i: usize = 1;
    while i < v.len()
        invariant
            1 <= i <= v.len(),
            out@ == v@.subrange(1, i as int),
        decreases v.len() - i,
    {
        out.push(v[i]);
        i = i + 1;
        assert(out@ =~= v@.subrange(1, i as int));
    }
    assert(v@.subrange(1, v@.len() as int) =~= v@.skip(1));
    crate::text::string_of(&out)
}

/// The class name of a class file path.
fn class_name_from_path(path: &str) -> (r: String)
    requires
        is_class_path(path@),
    ensures
        r@ == class_name_of(path@),
{
    let dotted = replace_char_str(path, '/', ".");
    let v = crate::text::chars_of(dotted.as_str());
    proof {
        reveal_strlit(".class");
    }
    let end = v.len() - 6;
    let mut out: Vec<char> = Vec::new();
    let mut i: usize = 0;
    while i < end
        invariant
            i <= end,
            end == v@.len() - 6,
            out@ == v@.subrange(0, i as int),
        decreases end - i,
    {
        out.push(v[i]);
        i = i + 1;
        assert(out@ =~= v@.subrange(0, i as int));
    }
    crate::text::string_of(&out)
}

/// Adds `name` to artifact `c` in the table, creating its entry if needed.
fn add_class(results: &mut Vec<(MvnCoord, Vec<String>)>, c: &MvnCoord, name: String)
    ensures
        table_view(final(results)@) == table_add(table_view(old(results)@), c@, name@),
{
    let ghost t = table_view(results@);
    let ghost p = key_is(c@);
    let mut i: usize = 0;
    while i < results.len()
        invariant
            i <= results.len(),
            t == table_view(results@),
            results@ == old(results)@,
            p == key_is(c@),
            first_index(t.take(i as int), p) is None,
        decreases results.len() - i,
    {
        proof {
            lemma_first_index_step(t, p, i as int);
        }
        if results[i].0 == *c {
            proof {
                assert(t[i as int].0 == c@);
                assert(p(t[i as int]));
                lemma_first_index_prefix(t, p, i + 1);
                assert(first_index(t, p) == Some(i as int));
                assert(key_index(t, c@) == Some(i as int));
            }
            let mut names = results[i].1.clone();
            let ghost old_names = views(results@[i as int].1@);
            names.push(name);
            let key = results[i].0.clone();
            let ghost before = results@;
            results.set(i, (key, names));
            proof {
                assert(views(names@) =~= old_names.push(name@));
                assert(table_view(results@) =~= t.update(i as int, (c@, t[i as int].1.push(name@))));
                assert(table_add(t, c@, name@) == t.update(i as int, (c@, t[i as int].1.push(name@))));
            }
            return;
        }
        i = i + 1;
    }
    assert(t.take(i as int) =~= t);
    let mut names: Vec<String> = Vec::new();
    names.push(name);
    let ghost before = results@;
    results.push((c.clone(), names));
    assert(views(names@) =~= seq![name@]);
    assert(table_view(results@) =~= t.push((c@, seq![name@])));
}

/// A Maven module: its name and its dependency jars by file name.
pub struct MvnModule {
    name: String,
    jar_map: Vec<(String, Jar)>,
}

/// The entry is that of the jar named `n`.
pub open spec fn jar_named(n: Seq<char>) -> spec_fn((String, Jar)) -> bool {
    |e: (String, Jar)| e.0@ == n
}

/// Jars keyed by name, as a map from names fills up: each name once, at the
/// place it first came, with the jar given last under it.
pub open spec fn keyed_jars(s: Seq<(String, Jar)>) -> Seq<(String, Jar)>
    decreases s.len(),
{
    if s.len() == 0 {
        s
    } else {
        let p = keyed_jars(s.drop_last());
        match first_index(p, jar_named(s.last().0@)) {
            Some(k) => p.update(k, s.last()),
            None => p.push(s.last()),
        }
    }
}

/// No two jars have the same name.
pub open spec fn jar_names_distinct(s: Seq<(String, Jar)>) -> bool {
    forall|i: int, j: int| 0 <= i < j < s.len() ==> (#[trigger] s[i]).0@ != (#[trigger] s[j]).0@
}

impl MvnModule {
    /// Each jar name has one entry: the list is a map keyed by jar name.
    #[verifier::type_invariant]
    spec fn names_distinct(&self) -> bool {
        jar_names_distinct(self.jar_map@)
    }

    pub closed spec fn name_view(&self) -> Seq<char> {
        self.name@
    }

    pub closed spec fn jars(&self) -> Seq<(String, Jar)> {
        self.jar_map@
    }

    /// A module with the given name and its jars keyed by name: where a name
    /// is given twice, the later jar replaces the earlier one.
    pub fn from_jars(module_name: &str, jar_map: Vec<(String, Jar)>) -> (r: MvnModule)
        ensures
            r.name_view() == module_name@,
            r.jars() == keyed_jars(jar_map@),
            jar_names_distinct(r.jars()),
    {
        let ghost all = jar_map@;
        let mut out: Vec<(String, Jar)> = Vec::new();
        for item in it: jar_map
            invariant
                it.seq() == all,
                out@ == keyed_jars(all.take(it.index() as int)),
                jar_names_distinct(out@),
        {
            let ghost i = it.index() as int;
            let ghost before = out@;
            assert(all.take(i + 1).drop_last() =~= all.take(i));
            assert(all.take(i + 1).last() == item);
            let mut k: usize = 0;
            let mut found = false;
            while k < out.len()
                invariant_except_break
                    first_index(before.take(k as int), jar_named(item.0@)) is None,
                    !found,
                invariant
                    k <= out.len(),
                    out@ == before,
                ensures
                    found ==> k < out.len() && first_index(before, jar_named(item.0@)) == Some(k as int),
                    !found ==> k == out.len() && first_index(before.take(k as int), jar_named(item.0@)) is None,
                decreases out.len() - k,
            {
                proof {
                    lemma_first_index_step(before, jar_named(item.0@), k as int);
                }
                if str_eq(out[k].0.as_str(), item.0.as_str()) {
                    proof {
                        lemma_first_index_prefix(before, jar_named(item.0@), k + 1);
                    }
                    found = true;
                    break;
                }
                k = k + 1;
            }
            if found {
                proof {
                    lemma_first_index_found(before, jar_named(item.0@));
                    assert(before[k as int].0@ == item.0@);
                }
                out.set(k, item);
                assert(out@ == before.update(k as int, item));
                assert forall|a: int, b: int| 0 <= a < b < out@.len() implies (#[trigger] out@[a]).0@
                    != (#[trigger] out@[b]).0@ by {
                    assert(out@[a].0@ == before[a].0@);
                    assert(out@[b].0@ == before[b].0@);
                    assert(before[a].0@ != before[b].0@);
                }
            } else {
                assert(before.take(k as int) =~= before);
                proof {
                    lemma_first_index_found(before, jar_named(item.0@));
                }
                out.push(item);
                assert forall|a: int, b: int| 0 <= a < b < out@.len() implies (#[trigger] out@[a]).0@
                    != (#[trigger] out@[b]).0@ by {
                    if b < before.len() {
                        assert(before[a].0@ != before[b].0@);
                    } else {
                        assert(!jar_named(item.0@)(before[a]));
                    }
                }
            }
        }
        assert(all.take(all.len() as int) =~= all);
        MvnModule { name: owned(module_name), jar_map: out }
    }

    pub fn name(&self) -> (r: &str)
        ensures
            r@ == self.name_view(),
    {
        self.name.as_str()
    }

    pub fn jar_map(&self) -> (r: &Vec<(String, Jar)>)
        ensures
            r@ == self.jars(),
    {
        &self.jar_map
    }
}

/// The paths that end with `class`, in order (the files of an extracted jar
/// that are taken for class files).
pub open spec fn class_file_filter(paths: Seq<Seq<char>>) -> Seq<Seq<char>>
    decreases paths.len(),
{
    if paths.len() == 0 {
        paths
    } else {
        let p = class_file_filter(paths.drop_last());
        if has_suffix(paths.last(), "class"@) {
            p.push(paths.last())
        } else {
            p
        }
    }
}

/// The coordinates a jar's classes are matched against: for a jar without
/// `META-INF`, one with the jar's name as artifact and empty group and
/// version; otherwise those read from its `pom.properties` files, or, if it
/// has none, those read from its `MANIFEST.MF` files; each once, in order.
pub open spec fn candidate_coord_views(
    has_meta_inf: bool,
    jar_name: Seq<char>,
    pom_coords: Seq<CoordView>,
    manifest_coords: Seq<CoordView>,
) -> Seq<CoordView> {
    if !has_meta_inf {
        seq![(Seq::<char>::empty(), jar_name, Seq::<char>::empty())]
    } else if pom_coords.len() > 0 {
        dedup(pom_coords)
    } else {
        dedup(manifest_coords)
    }
}

impl Jar {
    /// Whether a path, with `/` read as `.`, ends with `.class`, so that it
    /// names a class.
    pub fn is_class_file_path(path: &str) -> (r: bool)
        ensures
            r == is_class_path(path@),
    {
        let dotted = replace_char_str(path, '/', ".");
        ends_with(dotted.as_str(), ".class")
    }

    /// The paths that end with `class`, in order.
    pub fn class_file_paths(paths: &Vec<String>) -> (r: Vec<String>)
        ensures
            views(r@) == class_file_filter(views(paths@)),
    {
        let mut r: Vec<String> = Vec::new();
        let mut i: usize = 0;
        while i < paths.len()
            invariant
                i <= paths.len(),
                views(r@) == class_file_filter(views(paths@).take(i as int)),
            decreases paths.len() - i,
        {
            assert(views(paths@).take(i + 1).drop_last() =~= views(paths@).take(i as int));
            assert(views(paths@).take(i + 1).last() == paths@[i as int]@);
            if ends_with(paths[i].as_str(), "class") {
                let ghost before = r@;
                r.push(paths[i].clone());
                assert(views(r@) =~= views(before).push(paths@[i as int]@));
            }
            i = i + 1;
        }
        assert(views(paths@).take(i as int) =~= views(paths@));
        r
    }

    /// The coordinates a jar's classes are matched against (see
    /// `candidate_coord_views`).
    pub fn candidate_coords(
        has_meta_inf: bool,
        jar_name: &str,
        pom_coords: &Vec<MvnCoord>,
        manifest_coords: &Vec<MvnCoord>,
    ) -> (r: Vec<MvnCoord>)
        ensures
            coord_views(r@) == candidate_coord_views(
                has_meta_inf,
                jar_name@,
                coord_views(pom_coords@),
                coord_views(manifest_coords@),
            ),
    {
        if !has_meta_inf {
            let mut r: Vec<MvnCoord> = Vec::new();
            let empty = String::new();
            r.push(MvnCoord::new(empty.as_str(), jar_name, empty.as_str()));
            assert(coord_views(r@) =~= seq![(Seq::<char>::empty(), jar_name@, Seq::<char>::empty())]);
            return r;
        }
        let src = if pom_coords.len() > 0 {
            pom_coords
        } else {
            manifest_coords
        };
        let mut r: Vec<MvnCoord> = Vec::new();
        let mut i: usize = 0;
        while i < src.len()
            invariant
                i <= src.len(),
                coord_views(r@) == dedup(coord_views(src@).take(i as int)),
            decreases src.len() - i,
        {
            assert(coord_views(src@).take(i + 1).drop_last() =~= coord_views(src@).take(i as int));
            assert(coord_views(src@).take(i + 1).last() == src@[i as int]@);
            push_coord_if_new(&mut r, &src[i]);
            i = i + 1;
        }
        assert(coord_views(src@).take(i as int) =~= coord_views(src@));
        r
    }
}

} // verus!
