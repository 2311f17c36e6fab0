use vstd::prelude::*;
use crate::strkit::{strictly_sorted, views};
use fst::{IntoStreamer, Streamer};

verus! {

#[verifier::external_type_specification]
#[verifier::external_body]
#[verifier::reject_recursive_types(D)]
pub struct ExFstSet<D>(fst::Set<D>);

/// The keys a compiled keyset holds, as character sequences.
pub uninterp spec fn fst_keys(s: fst::Set<Vec<u8>>) -> Set<Seq<char>>;

/// Whether the case-insensitive regex automaton built from a query matches
/// somewhere inside a key; deterministic in the query and the key.
pub uninterp spec fn ci_match(query: Seq<char>, key: Seq<char>) -> bool;

/// Whether the query text compiles as a regular expression.
pub uninterp spec fn regex_ok(query: Seq<char>) -> bool;

/// Relies on fst::Set::from_iter, which accepts keys in strictly increasing
/// lexicographic byte order — UTF-8 keeps the character order, so the
/// requirement below gives exactly that — and builds the finite-state set
/// holding those keys. On such input it cannot fail: its only errors are
/// out-of-order and duplicate keys.
#[verifier::external_body]
pub fn build_keyset(keys: &Vec<String>) -> (r: fst::Set<Vec<u8>>)
    requires
        strictly_sorted(views(keys@)),
    ensures
        fst_keys(r) == views(keys@).to_set(),
{
    fst::Set::from_iter(keys.iter().map(|k| k.as_bytes())).expect("keys are sorted and distinct")
}

/// Relies on regex_automata::dense::Builder: whether the query, with the
/// `(?i)` flag prepended, compiles as a regular expression — a deterministic
/// function of the query text, named `regex_ok`.
#[verifier::external_body]
pub fn regex_check(query: &str) -> (r: bool)
    ensures
        r == regex_ok(query@),
{
    let pattern = format!("(?i){}", query);
    regex_automata::dense::Builder::new().anchored(false).build(&pattern).is_ok()
}

/// Relies on regex_automata::dense::Builder — unanchored, with the `(?i)`
/// flag prepended to the query, which compiles by the requirement here — and
/// on fst::Set::search, which streams every distinct key of the set the
/// automaton matches: returns those keys.
#[verifier::external_body]
pub fn search_keyset(s: &fst::Set<Vec<u8>>, query: &str) -> (r: Vec<String>)
    requires
        regex_ok(query@),
    ensures
        forall|x: Seq<char>|
            views(r@).contains(x) <==> (fst_keys(*s).contains(x) && ci_match(query@, x)),
        forall|i: int, j: int| 0 <= i < j < r@.len() ==> views(r@)[i] != views(r@)[j],
{
    let pattern = format!("(?i){}", query);
    let matcher = regex_automata::dense::Builder::new().anchored(false).build(&pattern).expect(
        "the pattern was checked",
    );
    let mut stream = s.search(matcher).into_stream();
    let mut found = Vec::new();
    while let Some(key) = stream.next() {
        if let Ok(k) = String::from_utf8(key.to_vec()) {
            found.push(k);
        }
    }
    found
}

} // verus!
