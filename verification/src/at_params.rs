use vstd::prelude::*;
use crate::score::ndl_sim_of;
use crate::strkit::{after_first_sep, after_last_slash, drop_first_segment, file_name_of, vec_contains_str, views};

verus! {

/// Which part of an indexed path a completion query is matched against when
/// the query does not start with `/`.
#[derive(Clone, Copy, PartialEq, Eq, Structural)]
pub enum KeyMode {
    FullPath,
    FileName,
    TailSegments,
}

pub open spec fn spec_key_of(mode: KeyMode, p: Seq<char>) -> Seq<char> {
    match mode {
        KeyMode::FullPath => p,
        KeyMode::FileName => after_last_slash(p),
        KeyMode::TailSegments => after_first_sep(p),
    }
}

pub open spec fn starts_with_slash(v: Seq<char>) -> bool {
    v.len() > 0 && v[0] == '/'
}

/// How well an indexed path answers a completion query: the normalized
/// Damerau-Levenshtein similarity of the query to the whole path when the
/// query starts with `/`, else to the mode's part of the path.
pub open spec fn spec_path_score(mode: KeyMode, value: Seq<char>, p: Seq<char>) -> u64 {
    if starts_with_slash(value) {
        ndl_sim_of(p, value)
    } else {
        ndl_sim_of(spec_key_of(mode, p), value)
    }
}

/// What a completion promises: at most `top_n` paths, every one drawn from
/// the given paths, scores non-increasing; when fewer than `top_n` came
/// back every path is among them, and a path left out never outscores the
/// last answer.
pub open spec fn spec_complete_post(
    mode: KeyMode,
    value: Seq<char>,
    paths: Seq<Seq<char>>,
    top_n: int,
    r: Seq<Seq<char>>,
) -> bool {
    &&& r.len() == vstd::math::min(paths.len() as int, top_n)
    &&& forall|i: int, j: int|
        0 <= i < j < r.len() ==> spec_path_score(mode, value, r[i]) >= spec_path_score(
            mode,
            value,
            r[j],
        )
    &&& forall|i: int| 0 <= i < r.len() ==> paths.contains(#[trigger] r[i])
    &&& (r.len() < top_n ==> (forall|p: Seq<char>| #[trigger] paths.contains(p) ==> r.contains(p)))
    &&& forall|p: Seq<char>|
        #[trigger] paths.contains(p) && !r.contains(p) && r.len() > 0 ==> spec_path_score(
            mode,
            value,
            p,
        ) <= spec_path_score(mode, value, r[r.len() - 1])
}

fn key_of(mode: KeyMode, p: &String) -> (r: String)
    ensures
        r@ == spec_key_of(mode, p@),
{
    match mode {
        KeyMode::FullPath => p.clone(),
        KeyMode::FileName => file_name_of(p),
        KeyMode::TailSegments => drop_first_segment(p),
    }
}

fn path_score(mode: KeyMode, value: &String, p: &String) -> (r: u64)
    ensures
        r == spec_path_score(mode, value@, p@),
{
    let vs = value.as_str();
    let slash = vs.unicode_len() > 0 && vs.get_char(0) == '/';
    if slash {
        crate::score::ndl_sim(p.as_str(), vs)
    } else {
        let key = key_of(mode, p);
        crate::score::ndl_sim(key.as_str(), vs)
    }
}

fn insert_path_desc(out: &mut Vec<(String, u64)>, x: (String, u64))
    requires
        forall|i: int, j: int|
            0 <= i < j < old(out)@.len() ==> old(out)@[i].1 >= old(out)@[j].1,
    ensures
        final(out)@.len() == old(out)@.len() + 1,
        forall|i: int, j: int|
            0 <= i < j < final(out)@.len() ==> final(out)@[i].1 >= final(out)@[j].1,
        forall|c: (Seq<char>, u64)|
            pair_views(final(out)@).contains(c) <==> (pair_views(old(out)@).contains(c) || c == (
            x.0@,
            x.1,
        )),
{
    let ghost ov = pair_views(old(out)@);
    let mut j: usize = 0;
    loop
        invariant
            j <= out.len(),
            *out == *old(out),
            forall|k: int| 0 <= k < j ==> out@[k].1 >= x.1,
            forall|i: int, j2: int| 0 <= i < j2 < out@.len() ==> out@[i].1 >= out@[j2].1,
        ensures
            j <= out.len(),
            *out == *old(out),
            forall|k: int| 0 <= k < j ==> out@[k].1 >= x.1,
            j < out.len() ==> out@[j as int].1 < x.1,
        decreases out.len() - j,
    {
        if j == out.len() {
            break;
        }
        if out[j].1 < x.1 {
            break;
        }
        j = j + 1;
    }
    let ghost xv = (x.0@, x.1);
    out.insert(j, x);
    proof {
        let nv = pair_views(out@);
        assert(nv.len() == ov.len() + 1);
        assert(forall|k: int| 0 <= k < j ==> out@[k] == old(out)@[k]);
        assert(forall|k: int| j < k < out@.len() ==> out@[k] == old(out)@[k - 1]);
        assert(out@[j as int].1 == x.1);
        assert(forall|k: int| 0 <= k < j ==> nv[k] == ov[k]);
        assert(nv[j as int] == xv);
        assert(forall|k: int| j < k < nv.len() ==> nv[k] == ov[k - 1]);
        assert forall|c: (Seq<char>, u64)| nv.contains(c) implies (ov.contains(c) || c == xv) by {
            let k = choose|k: int| 0 <= k < nv.len() && (#[trigger] nv[k]) == c;
            if k < j {
                assert(ov[k] == c);
            } else if k > j {
                assert(ov[k - 1] == c);
            }
        }
        assert forall|c: (Seq<char>, u64)| ov.contains(c) implies nv.contains(c) by {
            let k = choose|k: int| 0 <= k < ov.len() && (#[trigger] ov[k]) == c;
            if k < j {
                assert(nv[k] == c);
            } else {
                assert(nv[k + 1] == c);
            }
        }
        assert(nv.contains(xv)) by {
            assert(nv[j as int] == xv);
        }
    }
}

pub open spec fn pair_views(s: Seq<(String, u64)>) -> Seq<(Seq<char>, u64)> {
    s.map_values(|p: (String, u64)| (p.0@, p.1))
}

/// Ranks the indexed paths against the query and keeps the best `top_n`.
fn complete_paths(mode: KeyMode, value: &String, paths: &Vec<String>, top_n: usize) -> (r: Vec<
    String,
>)
    ensures
        spec_complete_post(mode, value@, views(paths@), top_n as int, views(r@)),
{
    let mut scored: Vec<(String, u64)> = Vec::new();
    let mut i: usize = 0;
    while i < paths.len()
        invariant
            i <= paths.len(),
            scored@.len() == i,
            forall|k: int, j: int| 0 <= k < j < scored@.len() ==> scored@[k].1 >= scored@[j].1,
            forall|c: (Seq<char>, u64)|
                pair_views(scored@).contains(c) ==> (views(paths@).contains(c.0) && c.1
                    == spec_path_score(mode, value@, c.0)),
            forall|p: Seq<char>|
                views(paths@.take(i as int)).contains(p) ==> pair_views(scored@).contains(
                    (p, spec_path_score(mode, value@, p)),
                ),
        decreases paths.len() - i,
    {
        let p = paths[i].clone();
        let s = path_score(mode, value, &p);
        let ghost prev = pair_views(scored@);
        insert_path_desc(&mut scored, (p, s));
        proof {
            crate::strkit::lemma_views_take_succ(paths@, i as int);
            assert(views(paths@).contains(paths@[i as int]@)) by {
                assert(views(paths@)[i as int] == paths@[i as int]@);
            }
            assert forall|p2: Seq<char>|
                views(paths@.take(i + 1)).contains(p2) implies pair_views(scored@).contains(
                (p2, spec_path_score(mode, value@, p2)),
            ) by {
                assert(views(paths@.take(i + 1)).to_set().contains(p2));
                if p2 == paths@[i as int]@ {
                } else {
                    assert(views(paths@.take(i as int)).to_set().contains(p2));
                }
            }
        }
        i = i + 1;
    }
    proof {
        assert(paths@.take(paths@.len() as int) =~= paths@);
        assert forall|p: Seq<char>|
            views(paths@).contains(p) implies pair_views(scored@).contains(
            (p, spec_path_score(mode, value@, p)),
        ) by {
            assert(views(paths@.take(paths@.len() as int)).contains(p));
        }
    }
    let mut r: Vec<String> = Vec::new();
    let mut i: usize = 0;
    while i < scored.len() && i < top_n
        invariant
            i <= scored.len(),
            i <= top_n,
            r@.len() == i,
            forall|k: int| 0 <= k < i ==> r@[k]@ == scored@[k].0@,
            scored@.len() == paths@.len(),
            forall|k: int, j: int| 0 <= k < j < scored@.len() ==> scored@[k].1 >= scored@[j].1,
            forall|c: (Seq<char>, u64)|
                pair_views(scored@).contains(c) ==> (views(paths@).contains(c.0) && c.1
                    == spec_path_score(mode, value@, c.0)),
            forall|p: Seq<char>|
                views(paths@).contains(p) ==> pair_views(scored@).contains(
                    (p, spec_path_score(mode, value@, p)),
                ),
        decreases scored.len() - i,
    {
        r.push(scored[i].0.clone());
        i = i + 1;
    }
    proof {
        let rv = views(r@);
        let sv = pair_views(scored@);
        assert(rv.len() == vstd::math::min(views(paths@).len() as int, top_n as int));
        assert forall|k: int| 0 <= k < rv.len() implies rv[k] == sv[k].0 && sv[k].1
            == spec_path_score(mode, value@, rv[k]) by {
            assert(sv[k] == (scored@[k].0@, scored@[k].1));
            assert(sv.contains(sv[k])) by {
                assert(sv[k] == sv[k]);
            }
        }
        assert forall|k: int, j: int|
            0 <= k < j < rv.len() implies spec_path_score(mode, value@, rv[k]) >= spec_path_score(
            mode,
            value@,
            rv[j],
        ) by {
            assert(sv[k].1 >= sv[j].1);
        }
        assert forall|k: int| 0 <= k < rv.len() implies views(paths@).contains(
            #[trigger] rv[k],
        ) by {
            assert(sv.contains(sv[k])) by {
                assert(sv[k] == sv[k]);
            }
        }
        assert forall|p: Seq<char>|
            views(paths@).contains(p) && !rv.contains(p) && rv.len() > 0 implies spec_path_score(
            mode,
            value@,
            p,
        ) <= spec_path_score(mode, value@, rv[rv.len() - 1]) by {
            let c = (p, spec_path_score(mode, value@, p));
            assert(sv.contains(c));
            let k = choose|k: int| 0 <= k < sv.len() && (#[trigger] sv[k]) == c;
            if k < rv.len() {
                assert(rv[k] == p);
            } else {
                assert(sv[k].1 <= sv[rv.len() - 1].1);
                assert(sv[rv.len() - 1].1 == spec_path_score(mode, value@, rv[rv.len() - 1]));
            }
        }
        assert forall|p: Seq<char>|
            rv.len() < top_n && views(paths@).contains(p) implies rv.contains(p) by {
            let c = (p, spec_path_score(mode, value@, p));
            assert(sv.contains(c));
            let k = choose|k: int| 0 <= k < sv.len() && (#[trigger] sv[k]) == c;
            assert(rv[k] == p);
        }
    }
    r
}

/// The parameter that names an indexed file, completed against the paths
/// the workspace database lists.
pub struct AtParamFilePath {
    pub name: String,
}

impl AtParamFilePath {
    pub fn new() -> (r: Self)
        ensures
            r.name@ == "file_path"@,
    {
        Self { name: String::from_str("file_path") }
    }

    pub fn name(&self) -> (r: &String)
        ensures
            r@ == self.name@,
    {
        &self.name
    }

    /// A value is valid exactly when it is one of the indexed file paths.
    pub fn is_value_valid(&self, value: &String, index_file_paths: &Vec<String>) -> (r: bool)
        ensures
            r == views(index_file_paths@).contains(value@),
    {
        vec_contains_str(index_file_paths, value)
    }

    /// The indexed file paths most similar to the value: the value is
    /// matched against the whole path when it starts with `/`, else against
    /// the file name.
    pub fn complete(&self, value: &String, index_file_paths: &Vec<String>, top_n: usize) -> (r:
        Vec<String>)
        ensures
            spec_complete_post(
                KeyMode::FileName,
                value@,
                views(index_file_paths@),
                top_n as int,
                views(r@),
            ),
    {
        complete_paths(KeyMode::FileName, value, index_file_paths, top_n)
    }

    pub fn complete_if_valid(&self) -> (r: bool)
        ensures
            r == false,
    {
        false
    }
}

/// The parameter that names a declaration by a fuzzy symbol-path query,
/// completed against the index's declaration paths.
pub struct AtParamSymbolPathQuery {
    pub name: String,
}

impl AtParamSymbolPathQuery {
    pub fn new() -> (r: Self)
        ensures
            r.name@ == "context_file"@,
    {
        Self { name: String::from_str("context_file") }
    }

    pub fn name(&self) -> (r: &String)
        ensures
            r@ == self.name@,
    {
        &self.name
    }

    pub fn is_value_valid(&self, value: &String) -> (r: bool)
        ensures
            r == true,
    {
        let _ = value;
        true
    }

    /// The indexed symbol paths most similar to the value: the value is
    /// matched against the whole path when it starts with `/`, else against
    /// the path with its first segment dropped.
    pub fn complete(&self, value: &String, index_paths: &Vec<String>, top_n: usize) -> (r: Vec<
        String,
    >)
        ensures
            spec_complete_post(
                KeyMode::TailSegments,
                value@,
                views(index_paths@),
                top_n as int,
                views(r@),
            ),
    {
        complete_paths(KeyMode::TailSegments, value, index_paths, top_n)
    }

    pub fn complete_if_valid(&self) -> (r: bool)
        ensures
            r == true,
    {
        true
    }
}

/// The parameter that names a usage by a fuzzy symbol-path query, completed
/// against the index's usage paths.
pub struct AtParamSymbolReferencePathQuery {
    pub name: String,
}

impl AtParamSymbolReferencePathQuery {
    pub fn new() -> (r: Self)
        ensures
            r.name@ == "context_file"@,
    {
        Self { name: String::from_str("context_file") }
    }

    pub fn name(&self) -> (r: &String)
        ensures
            r@ == self.name@,
    {
        &self.name
    }

    pub fn is_value_valid(&self, value: &String) -> (r: bool)
        ensures
            r == true,
    {
        let _ = value;
        true
    }

    /// The indexed usage paths most similar to the value, matched as for
    /// the symbol-path query parameter.
    pub fn complete(&self, value: &String, index_paths: &Vec<String>, top_n: usize) -> (r: Vec<
        String,
    >)
        ensures
            spec_complete_post(
                KeyMode::TailSegments,
                value@,
                views(index_paths@),
                top_n as int,
                views(r@),
            ),
    {
        complete_paths(KeyMode::TailSegments, value, index_paths, top_n)
    }

    pub fn complete_if_valid(&self) -> (r: bool)
        ensures
            r == true,
    {
        true
    }
}

} // verus!
