use vstd::prelude::*;

verus! {

/// Lexicographic order on character sequences: `a` comes strictly before `b`.
/// For UTF-8 encoded strings this coincides with lexicographic byte order,
/// since UTF-8 preserves the code-point order.
pub open spec fn seq_lt(a: Seq<char>, b: Seq<char>) -> bool
    decreases a.len(),
{
    if a.len() == 0 {
        b.len() > 0
    } else if b.len() == 0 {
        false
    } else if a[0] != b[0] {
        (a[0] as u32) < (b[0] as u32)
    } else {
        seq_lt(a.drop_first(), b.drop_first())
    }
}

pub proof fn lemma_seq_lt_total(a: Seq<char>, b: Seq<char>)
    ensures
        seq_lt(a, b) || seq_lt(b, a) || a == b,
    decreases a.len(),
{
    if a.len() == 0 {
        if b.len() == 0 {
            assert(a =~= b);
        }
    } else if b.len() == 0 {
    } else if a[0] != b[0] {
        assert((a[0] as u32) != (b[0] as u32)) by {
            vstd::utf8::char_u32_cast(a[0], a[0] as u32);
            vstd::utf8::char_u32_cast(b[0], b[0] as u32);
        }
    } else {
        lemma_seq_lt_total(a.drop_first(), b.drop_first());
        if a.drop_first() == b.drop_first() {
            assert(a =~= seq![a[0]] + a.drop_first());
            assert(b =~= seq![b[0]] + b.drop_first());
        }
    }
}

pub proof fn lemma_seq_lt_transitive(a: Seq<char>, b: Seq<char>, c: Seq<char>)
    requires
        seq_lt(a, b),
        seq_lt(b, c),
    ensures
        seq_lt(a, c),
    decreases a.len(),
{
    if a.len() != 0 && b.len() != 0 && c.len() != 0 && a[0] == b[0] && b[0] == c[0] {
        lemma_seq_lt_transitive(a.drop_first(), b.drop_first(), c.drop_first());
    }
}

/// String equality by view.
pub fn str_eq(a: &str, b: &str) -> (r: bool)
    ensures
        r == (a@ == b@),
{
    let alen = a.unicode_len();
    let blen = b.unicode_len();
    if alen != blen {
        return false;
    }
    let mut i: usize = 0;
    while i < alen
        invariant
            i <= alen,
            alen == a@.len() && alen == b@.len(),
            forall|j: int| 0 <= j < i ==> a@[j] == b@[j],
        decreases alen - i,
    {
        if a.get_char(i) != b.get_char(i) {
            return false;
        }
        i = i + 1;
    }
    proof {
        assert(a@ =~= b@);
    }
    true
}

proof fn lemma_seq_lt_common_prefix(a: Seq<char>, b: Seq<char>, i: int)
    requires
        0 <= i <= a.len(),
        i <= b.len(),
        forall|j: int| 0 <= j < i ==> a[j] == b[j],
    ensures
        seq_lt(a, b) == seq_lt(a.skip(i), b.skip(i)),
    decreases i,
{
    if i > 0 {
        assert(a.len() > 0 && b.len() > 0 && a[0] == b[0]);
        assert(a.drop_first().skip(i - 1) =~= a.skip(i));
        assert(b.drop_first().skip(i - 1) =~= b.skip(i));
        assert(forall|j: int|
            0 <= j < i - 1 ==> a.drop_first()[j] == a[j + 1] && b.drop_first()[j] == b[j + 1]);
        lemma_seq_lt_common_prefix(a.drop_first(), b.drop_first(), i - 1);
    } else {
        assert(a.skip(0) =~= a);
        assert(b.skip(0) =~= b);
    }
}

/// Strict lexicographic comparison of two strings.
pub fn str_lt(a: &str, b: &str) -> (r: bool)
    ensures
        r == seq_lt(a@, b@),
{
    let alen = a.unicode_len();
    let blen = b.unicode_len();
    let mut i: usize = 0;
    loop
        invariant
            i <= alen && i <= blen,
            alen == a@.len() && blen == b@.len(),
            forall|j: int| 0 <= j < i ==> a@[j] == b@[j],
        decreases alen - i,
    {
        if i == alen || i == blen {
            proof {
                lemma_seq_lt_common_prefix(a@, b@, i as int);
            }
            return alen < blen;
        }
        let ca = a.get_char(i);
        let cb = b.get_char(i);
        if ca != cb {
            proof {
                lemma_seq_lt_common_prefix(a@, b@, i as int);
                assert(a@.skip(i as int)[0] == a@[i as int]);
                assert(b@.skip(i as int)[0] == b@[i as int]);
            }
            return (ca as u32) < (cb as u32);
        }
        i = i + 1;
    }
}

/// The views of a vector of strings.
pub open spec fn views(s: Seq<String>) -> Seq<Seq<char>> {
    s.map_values(|t: String| t@)
}

/// Every element strictly precedes every later one: sorted with no duplicates.
pub open spec fn strictly_sorted(s: Seq<Seq<char>>) -> bool {
    forall|i: int, j: int| 0 <= i < j < s.len() ==> seq_lt(s[i], s[j])
}

/// Inserts `s` into a strictly sorted vector, keeping it strictly sorted;
/// a value already present is not inserted again.
fn insert_unique(out: &mut Vec<String>, s: String)
    requires
        strictly_sorted(views(old(out)@)),
    ensures
        strictly_sorted(views(final(out)@)),
        forall|x: Seq<char>|
            views(final(out)@).contains(x) <==> (views(old(out)@).contains(x) || x == s@),
{
    let ghost ov = views(old(out)@);
    let mut j: usize = 0;
    loop
        invariant
            j <= out.len(),
            *out == *old(out),
            strictly_sorted(ov),
            ov == views(out@),
            forall|k: int| 0 <= k < j ==> seq_lt(ov[k], s@),
        ensures
            j <= out.len(),
            *out == *old(out),
            forall|k: int| 0 <= k < j ==> seq_lt(ov[k], s@),
            j < out.len() ==> !seq_lt(ov[j as int], s@),
        decreases out.len() - j,
    {
        if j == out.len() {
            break;
        }
        if !str_lt(out[j].as_str(), s.as_str()) {
            break;
        }
        j = j + 1;
    }
    if j < out.len() && str_eq(out[j].as_str(), s.as_str()) {
        proof {
            assert(views(out@)[j as int] == s@);
            assert(views(out@).contains(s@));
        }
        return;
    }
    proof {
        if j < out@.len() {
            lemma_seq_lt_total(ov[j as int], s@);
            assert(seq_lt(s@, ov[j as int]));
        }
        assert forall|q: int| j <= q < ov.len() implies seq_lt(s@, ov[q]) by {
            if q > j {
                lemma_seq_lt_transitive(s@, ov[j as int], ov[q]);
            }
        }
    }
    out.insert(j, s);
    proof {
        let nv = views(out@);
        assert(nv.len() == ov.len() + 1);
        assert(forall|k: int| 0 <= k < j ==> nv[k] == ov[k]);
        assert(nv[j as int] == s@);
        assert(forall|k: int| j < k < nv.len() ==> nv[k] == ov[k - 1]);
        assert forall|p: int, q: int| 0 <= p < q < nv.len() implies seq_lt(nv[p], nv[q]) by {
            if q < j {
            } else if p < j && q == j {
            } else if p < j && q > j {
                assert(nv[q] == ov[q - 1]);
            } else if p == j {
                assert(seq_lt(s@, ov[q - 1]));
            }
        }
        assert forall|x: Seq<char>| nv.contains(x) implies (ov.contains(x) || x == s@) by {
            let k = choose|k: int| 0 <= k < nv.len() && nv[k] == x;
            if k < j {
                assert(ov[k] == x);
            } else if k > j {
                assert(ov[k - 1] == x);
            }
        }
        assert forall|x: Seq<char>| ov.contains(x) implies nv.contains(x) by {
            let k = choose|k: int| 0 <= k < ov.len() && ov[k] == x;
            if k < j {
                assert(nv[k] == x);
            } else {
                assert(nv[k + 1] == x);
            }
        }
        assert(nv.contains(s@)) by {
            assert(nv[j as int] == s@);
        }
    }
}

/// Sorts the strings and drops duplicates: the result holds exactly the
/// distinct values of the input, in strictly increasing lexicographic order.
pub fn sort_unique(v: &Vec<String>) -> (r: Vec<String>)
    ensures
        strictly_sorted(views(r@)),
        forall|x: Seq<char>| views(r@).contains(x) <==> views(v@).contains(x),
{
    let mut out: Vec<String> = Vec::new();
    let mut i: usize = 0;
    while i < v.len()
        invariant
            i <= v.len(),
            strictly_sorted(views(out@)),
            forall|x: Seq<char>|
                views(out@).contains(x) <==> views(v@.take(i as int)).contains(x),
        decreases v.len() - i,
    {
        let ghost before = views(out@);
        let s = v[i].clone();
        insert_unique(&mut out, s);
        proof {
            let tv0 = views(v@.take(i as int));
            let tv1 = views(v@.take(i + 1));
            assert(v@.take(i + 1) =~= v@.take(i as int).push(v@[i as int]));
            assert(tv1 =~= tv0.push(v@[i as int]@));
            assert forall|x: Seq<char>| tv1.contains(x) implies (tv0.contains(x) || x == v@[
                i as int
            ]@) by {
                let k = choose|k: int| 0 <= k < tv1.len() && tv1[k] == x;
                if k < tv0.len() {
                    assert(tv0[k] == x);
                }
            }
            assert forall|x: Seq<char>| tv0.contains(x) implies tv1.contains(x) by {
                let k = choose|k: int| 0 <= k < tv0.len() && tv0[k] == x;
                assert(tv1[k] == x);
            }
            assert(tv1.contains(v@[i as int]@)) by {
                assert(tv1[i as int] == v@[i as int]@);
            }
        }
        i = i + 1;
    }
    proof {
        assert(v@.take(v@.len() as int) =~= v@);
    }
    out
}

/// The `::`-joined symbol path built from enclosing scopes and a leaf name.
pub open spec fn spec_join(scope: Seq<Seq<char>>, name: Seq<char>) -> Seq<char>
    decreases scope.len(),
{
    if scope.len() == 0 {
        name
    } else {
        scope[0] + "::"@ + spec_join(scope.drop_first(), name)
    }
}

fn join_from(scope: &Vec<String>, i: usize, name: &str) -> (r: String)
    requires
        i <= scope.len(),
    ensures
        r@ == spec_join(views(scope@).skip(i as int), name@),
    decreases scope.len() - i,
{
    if i == scope.len() {
        proof {
            assert(views(scope@).skip(i as int) =~= Seq::<Seq<char>>::empty());
        }
        String::from_str(name)
    } else {
        let mut s = scope[i].clone();
        s.append("::");
        let rest = join_from(scope, i + 1, name);
        s.append(rest.as_str());
        proof {
            let v = views(scope@);
            assert(v.skip(i as int)[0] == v[i as int]);
            assert(v.skip(i as int).drop_first() =~= v.skip(i + 1));
        }
        s
    }
}

/// Joins scope segments and a leaf name with `::`.
pub fn join_scope(scope: &Vec<String>, name: &str) -> (r: String)
    ensures
        r@ == spec_join(views(scope@), name@),
{
    let r = join_from(scope, 0, name);
    proof {
        assert(views(scope@).skip(0) =~= views(scope@));
    }
    r
}

pub open spec fn dec_digit(d: nat) -> char {
    if d == 0 {
        '0'
    } else if d == 1 {
        '1'
    } else if d == 2 {
        '2'
    } else if d == 3 {
        '3'
    } else if d == 4 {
        '4'
    } else if d == 5 {
        '5'
    } else if d == 6 {
        '6'
    } else if d == 7 {
        '7'
    } else if d == 8 {
        '8'
    } else {
        '9'
    }
}

/// The decimal digits of a number, most significant first.
pub open spec fn dec_str(n: nat) -> Seq<char>
    decreases n,
{
    if n < 10 {
        seq![dec_digit(n)]
    } else {
        dec_str(n / 10).push(dec_digit(n % 10))
    }
}

fn digit_string(d: usize) -> (r: String)
    requires
        d < 10,
    ensures
        r@ == seq![dec_digit(d as nat)],
{
    proof {
        reveal_strlit("0");
        reveal_strlit("1");
        reveal_strlit("2");
        reveal_strlit("3");
        reveal_strlit("4");
        reveal_strlit("5");
        reveal_strlit("6");
        reveal_strlit("7");
        reveal_strlit("8");
        reveal_strlit("9");
    }
    let s: &str = if d == 0 {
        "0"
    } else if d == 1 {
        "1"
    } else if d == 2 {
        "2"
    } else if d == 3 {
        "3"
    } else if d == 4 {
        "4"
    } else if d == 5 {
        "5"
    } else if d == 6 {
        "6"
    } else if d == 7 {
        "7"
    } else if d == 8 {
        "8"
    } else {
        "9"
    };
    proof {
        assert(s@ =~= seq![dec_digit(d as nat)]);
    }
    String::from_str(s)
}

/// Renders a number in decimal.
pub fn usize_to_string(n: usize) -> (r: String)
    ensures
        r@ == dec_str(n as nat),
    decreases n,
{
    if n < 10 {
        digit_string(n)
    } else {
        let mut s = usize_to_string(n / 10);
        let d = digit_string(n % 10);
        s.append(d.as_str());
        proof {
            assert(s@ =~= dec_str((n / 10) as nat).push(dec_digit((n % 10) as nat)));
        }
        s
    }
}

/// What follows the first `::` separator; empty when there is none.
pub open spec fn after_first_sep(s: Seq<char>) -> Seq<char>
    decreases s.len(),
{
    if s.len() < 2 {
        Seq::empty()
    } else if s[0] == ':' && s[1] == ':' {
        s.skip(2)
    } else {
        after_first_sep(s.drop_first())
    }
}

proof fn lemma_after_first_sep_skip(s: Seq<char>, i: int)
    requires
        0 <= i,
        i + 1 <= s.len(),
        forall|j: int| 0 <= j < i ==> !(#[trigger] s[j] == ':' && s[j + 1] == ':'),
    ensures
        after_first_sep(s) == after_first_sep(s.skip(i)),
    decreases i,
{
    if i > 0 {
        assert(!(s[0] == ':' && s[1] == ':'));
        assert(forall|j: int|
            0 <= j < i - 1 ==> #[trigger] s.drop_first()[j] == s[j + 1] && s.drop_first()[j + 1]
                == s[j + 2]);
        lemma_after_first_sep_skip(s.drop_first(), i - 1);
        assert(s.drop_first().skip(i - 1) =~= s.skip(i));
    } else {
        assert(s.skip(0) =~= s);
    }
}

/// Drops the first `::`-separated segment of a symbol path: the part after
/// the first separator, or the empty string when the path has one segment.
pub fn drop_first_segment(s: &String) -> (r: String)
    ensures
        r@ == after_first_sep(s@),
{
    let st = s.as_str();
    let len = st.unicode_len();
    let mut i: usize = 0;
    loop
        invariant
            i <= len,
            len == st@.len(),
            st@ == s@,
            forall|j: int| 0 <= j < i ==> !(#[trigger] s@[j] == ':' && s@[j + 1] == ':'),
        decreases len - i,
    {
        if len - i < 2 {
            proof {
                if s@.len() >= 2 {
                    lemma_after_first_sep_skip(s@, (len - 1) as int);
                    assert(s@.skip((len - 1) as int).len() < 2);
                }
            }
            return String::new();
        }
        if st.get_char(i) == ':' && st.get_char(i + 1) == ':' {
            let rest = st.substring_char(i + 2, len);
            proof {
                lemma_after_first_sep_skip(s@, i as int);
                assert(s@.skip(i as int)[0] == ':' && s@.skip(i as int)[1] == ':');
                assert(s@.skip(i as int).skip(2) =~= s@.skip(i + 2));
                assert(s@.skip(i + 2) =~= s@.subrange(i + 2, s@.len() as int));
            }
            return String::from_str(rest);
        }
        i = i + 1;
    }
}

/// What follows the last `/`; the whole string when there is no `/`.
pub open spec fn after_last_slash(s: Seq<char>) -> Seq<char>
    decreases s.len(),
{
    if s.len() == 0 {
        s
    } else if s.last() == '/' {
        Seq::empty()
    } else {
        after_last_slash(s.drop_last()).push(s.last())
    }
}

proof fn lemma_after_last_slash_none(s: Seq<char>)
    requires
        forall|j: int| 0 <= j < s.len() ==> s[j] != '/',
    ensures
        after_last_slash(s) == s,
    decreases s.len(),
{
    if s.len() > 0 {
        lemma_after_last_slash_none(s.drop_last());
        assert(s.drop_last().push(s.last()) =~= s);
    } else {
        assert(after_last_slash(s) =~= s);
    }
}

proof fn lemma_after_last_slash_at(s: Seq<char>, k: int)
    requires
        0 <= k < s.len(),
        s[k] == '/',
        forall|j: int| k < j < s.len() ==> s[j] != '/',
    ensures
        after_last_slash(s) == s.skip(k + 1),
    decreases s.len(),
{
    if k == s.len() - 1 {
        assert(s.skip(k + 1) =~= Seq::<char>::empty());
    } else {
        lemma_after_last_slash_at(s.drop_last(), k);
        assert(s.drop_last().skip(k + 1) =~= s.skip(k + 1).drop_last());
        assert(s.skip(k + 1).drop_last().push(s.last()) =~= s.skip(k + 1));
    }
}

/// The file name part of a path: what follows the last `/`.
pub fn file_name_of(s: &String) -> (r: String)
    ensures
        r@ == after_last_slash(s@),
{
    let st = s.as_str();
    let len = st.unicode_len();
    let mut i: usize = len;
    loop
        invariant
            i <= len,
            len == st@.len(),
            st@ == s@,
            forall|j: int| i <= j < len ==> s@[j] != '/',
        decreases i,
    {
        if i == 0 {
            proof {
                lemma_after_last_slash_none(s@);
                assert(s@.subrange(0, s@.len() as int) =~= s@);
            }
            return String::from_str(st.substring_char(0, len));
        }
        if st.get_char(i - 1) == '/' {
            let rest = st.substring_char(i, len);
            proof {
                lemma_after_last_slash_at(s@, i - 1);
                assert(s@.skip(i as int) =~= s@.subrange(i as int, s@.len() as int));
            }
            return String::from_str(rest);
        }
        i = i - 1;
    }
}

/// Whether a file path carries the `.cpp` extension.
pub open spec fn is_cpp_path(p: Seq<char>) -> bool {
    p.len() >= 4 && p.skip(p.len() - 4) == ".cpp"@
}

/// Checks the `.cpp` extension on a file path.
pub fn has_cpp_extension(p: &String) -> (r: bool)
    ensures
        r == is_cpp_path(p@),
{
    let st = p.as_str();
    let len = st.unicode_len();
    if len < 4 {
        return false;
    }
    let tail = st.substring_char(len - 4, len);
    let r = str_eq(tail, ".cpp");
    proof {
        assert(p@.skip(p@.len() - 4) =~= p@.subrange(len - 4, len as int));
    }
    r
}

/// Whether a vector of strings holds a value, compared by view.
pub fn vec_contains_str(v: &Vec<String>, s: &String) -> (r: bool)
    ensures
        r == views(v@).contains(s@),
{
    let mut i: usize = 0;
    while i < v.len()
        invariant
            i <= v.len(),
            forall|k: int| 0 <= k < i ==> views(v@)[k] != s@,
        decreases v.len() - i,
    {
        if str_eq(v[i].as_str(), s.as_str()) {
            proof {
                assert(views(v@)[i as int] == s@);
            }
            return true;
        }
        i = i + 1;
    }
    false
}


/// Taking one more element adds exactly its view to the set of views.
pub proof fn lemma_views_take_succ(s: Seq<String>, i: int)
    requires
        0 <= i < s.len(),
    ensures
        views(s.take(i + 1)).to_set() == views(s.take(i)).to_set().insert(s[i]@),
{
    let a = views(s.take(i));
    let b = views(s.take(i + 1));
    assert(b.len() == i + 1 && a.len() == i);
    assert forall|x: Seq<char>| b.to_set().contains(x) implies a.to_set().contains(x) || x
        == s[i]@ by {
        let k = choose|k: int| 0 <= k < b.len() && (#[trigger] b[k]) == x;
        if k < i {
            assert(a[k] == x);
        } else {
            assert(b[k] == s[i]@);
        }
    }
    assert forall|x: Seq<char>| a.to_set().contains(x) implies b.to_set().contains(x) by {
        let k = choose|k: int| 0 <= k < a.len() && (#[trigger] a[k]) == x;
        assert(b[k] == x);
    }
    assert(b.to_set().contains(s[i]@)) by {
        assert(b[i] == s[i]@);
    }
    assert(b.to_set() =~= a.to_set().insert(s[i]@));
}


/// No two entries share a view.
pub open spec fn no_dup_views(s: Seq<String>) -> bool {
    forall|i: int, j: int| 0 <= i < j < s.len() ==> s[i]@ != s[j]@
}

/// Removes the entry holding the given value, if present; the list keeps
/// every other value exactly once.
pub fn paths_remove(paths: &mut Vec<String>, k: &String)
    requires
        no_dup_views(old(paths)@),
    ensures
        no_dup_views(final(paths)@),
        forall|x: Seq<char>|
            views(final(paths)@).contains(x) <==> (views(old(paths)@).contains(x) && x != k@),
{
    let mut i: usize = 0;
    while i < paths.len()
        invariant
            i <= paths.len(),
            *paths == *old(paths),
            no_dup_views(paths@),
            forall|j: int| 0 <= j < i ==> paths@[j]@ != k@,
        decreases paths.len() - i,
    {
        if str_eq(paths[i].as_str(), k.as_str()) {
            let ghost before = paths@;
            let _ = paths.remove(i);
            proof {
                assert(before[i as int]@ == k@);
                assert(paths@.len() == before.len() - 1);
                assert(forall|j: int| 0 <= j < i ==> paths@[j] == before[j]);
                assert(forall|j: int| i <= j < paths@.len() ==> paths@[j] == before[j + 1]);
                assert forall|p: int, q: int| 0 <= p < q < paths@.len() implies paths@[p]@
                    != paths@[q]@ by {
                    let p0: int = if p < i {
                        p
                    } else {
                        p + 1
                    };
                    let q0: int = if q < i {
                        q
                    } else {
                        q + 1
                    };
                    assert(paths@[p] == before[p0] && paths@[q] == before[q0]);
                }
                assert forall|x: Seq<char>| views(paths@).contains(x) implies (views(
                    before,
                ).contains(x) && x != k@) by {
                    let j = choose|j: int|
                        0 <= j < paths@.len() && (#[trigger] views(paths@)[j]) == x;
                    let j0: int = if j < i {
                        j
                    } else {
                        j + 1
                    };
                    assert(views(before)[j0] == x);
                    assert(before[j0]@ != before[i as int]@);
                }
                assert forall|x: Seq<char>|
                    views(before).contains(x) && x != k@ implies views(paths@).contains(x) by {
                    let j = choose|j: int|
                        0 <= j < before.len() && (#[trigger] views(before)[j]) == x;
                    assert(j != i);
                    if j < i {
                        assert(views(paths@)[j] == x);
                    } else {
                        assert(views(paths@)[j - 1] == x);
                    }
                }
            }
            return;
        }
        i = i + 1;
    }
    proof {
        assert forall|x: Seq<char>| views(paths@).contains(x) implies x != k@ by {
            let j = choose|j: int| 0 <= j < paths@.len() && (#[trigger] views(paths@)[j]) == x;
            assert(paths@[j]@ != k@);
        }
    }
}

/// Adds the value to the list unless an entry with its view is present.
pub fn paths_insert(paths: &mut Vec<String>, k: &String)
    requires
        no_dup_views(old(paths)@),
    ensures
        no_dup_views(final(paths)@),
        forall|x: Seq<char>|
            views(final(paths)@).contains(x) <==> (views(old(paths)@).contains(x) || x == k@),
{
    if vec_contains_str(paths, k) {
        return;
    }
    let ghost before = paths@;
    paths.push(k.clone());
    proof {
        assert(forall|j: int| 0 <= j < before.len() ==> paths@[j] == before[j]);
        assert(paths@[before.len() as int]@ == k@);
        assert(!views(before).contains(k@));
        assert forall|p: int, q: int| 0 <= p < q < paths@.len() implies paths@[p]@ != paths@[q]@ by {
            if q == before.len() {
                assert(views(before)[p] == paths@[p]@ || true);
                if paths@[p]@ == k@ {
                    assert(views(before)[p] == k@);
                }
            }
        }
        assert forall|x: Seq<char>| views(paths@).contains(x) implies (views(before).contains(x)
            || x == k@) by {
            let j = choose|j: int| 0 <= j < paths@.len() && (#[trigger] views(paths@)[j]) == x;
            if j < before.len() {
                assert(views(before)[j] == x);
            }
        }
        assert forall|x: Seq<char>| views(before).contains(x) implies views(paths@).contains(
            x,
        ) by {
            let j = choose|j: int| 0 <= j < before.len() && (#[trigger] views(before)[j]) == x;
            assert(views(paths@)[j] == x);
        }
        assert(views(paths@).contains(k@)) by {
            assert(views(paths@)[before.len() as int] == k@);
        }
    }
}


/// A field-for-field copy of a vector of strings.
pub fn clone_strings(v: &Vec<String>) -> (r: Vec<String>)
    ensures
        views(r@) == views(v@),
{
    let mut out: Vec<String> = Vec::new();
    let mut i: usize = 0;
    while i < v.len()
        invariant
            i <= v.len(),
            out@.len() == i,
            forall|k: int| 0 <= k < i ==> out@[k]@ == v@[k]@,
        decreases v.len() - i,
    {
        out.push(v[i].clone());
        i = i + 1;
    }
    proof {
        assert(views(out@) =~= views(v@));
    }
    out
}

} // verus!
