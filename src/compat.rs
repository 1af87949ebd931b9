use vstd::prelude::*;
use vstd::seq_lib::seq_to_set_distributes_over_add;
use vstd::set_lib::lemma_set_intersect_union_lens;
use crate::header::{dedup, header_view, lemma_dedup, push_unseen};

verus! {

/// The names shared by two headers, as a set.
pub open spec fn shared_names(a: Seq<Seq<char>>, b: Seq<Seq<char>>) -> Set<Seq<char>> {
    a.to_set().intersect(b.to_set())
}

/// The names of either header, as a set.
pub open spec fn all_names(a: Seq<Seq<char>>, b: Seq<Seq<char>>) -> Set<Seq<char>> {
    a.to_set() + b.to_set()
}

/// Two headers are compatible when their name sets have a Jaccard index of
/// at least one half: `|a ∩ b| / |a ∪ b| >= 1/2`, with an empty union never
/// compatible. Order and repetition of names play no part.
pub open spec fn compatible(a: Seq<Seq<char>>, b: Seq<Seq<char>>) -> bool {
    &&& all_names(a, b).len() > 0
    &&& 2 * shared_names(a, b).len() >= all_names(a, b).len()
}

/// The distinct names of `h`, in order of first occurrence.
fn distinct_columns(h: &[String]) -> (r: Vec<String>)
    ensures
        header_view(r@) == dedup(header_view(h@)),
{
    let mut r: Vec<String> = Vec::new();
    assert(header_view(r@) =~= dedup(seq![]));
    push_unseen(&mut r, h, Ghost(Seq::empty()));
    assert(seq![] + header_view(h@) =~= header_view(h@));
    r
}

/// Whether two headers are compatible: the share of column names that both
/// hold, among all names of either, is at least one half.
pub fn headers_are_compatible(header1: &[String], header2: &[String]) -> (r: bool)
    ensures
        r == compatible(header_view(header1@), header_view(header2@)),
{
    let ghost a = header_view(header1@);
    let ghost b = header_view(header2@);
    let left = distinct_columns(header1);
    let right = distinct_columns(header2);
    let mut union: Vec<String> = Vec::new();
    assert(header_view(union@) =~= dedup(seq![]));
    push_unseen(&mut union, header1, Ghost(Seq::empty()));
    assert(seq![] + a =~= a);
    push_unseen(&mut union, header2, Ghost(a));
    proof {
        lemma_dedup(a);
        lemma_dedup(b);
        lemma_dedup(a + b);
        seq_to_set_distributes_over_add(a, b);
        lemma_set_intersect_union_lens(a.to_set(), b.to_set());
        assert(header_view(left@).len() == left@.len());
        assert(header_view(right@).len() == right@.len());
        assert(header_view(union@).len() == union@.len());
    }
    let n_union = union.len() as u128;
    let n_shared = left.len() as u128 + right.len() as u128 - n_union;
    n_union > 0 && 2 * n_shared >= n_union
}

/// Compatibility does not depend on which header comes first.
pub proof fn lemma_compatible_symmetric(a: Seq<Seq<char>>, b: Seq<Seq<char>>)
    ensures
        compatible(a, b) == compatible(b, a),
{
    assert(all_names(a, b) =~= all_names(b, a));
    assert(shared_names(a, b) =~= shared_names(b, a));
}

/// A header with at least one column is compatible with itself.
pub proof fn lemma_compatible_reflexive(a: Seq<Seq<char>>)
    requires
        a.len() > 0,
    ensures
        compatible(a, a),
{
    assert(all_names(a, a) =~= a.to_set());
    assert(shared_names(a, a) =~= a.to_set());
    lemma_dedup(a);
    assert(a.contains(a[0]));
    assert(dedup(a).contains(a[0]));
}

/// Headers that share no name are never compatible.
pub proof fn lemma_disjoint_not_compatible(a: Seq<Seq<char>>, b: Seq<Seq<char>>)
    requires
        shared_names(a, b).is_empty(),
    ensures
        !compatible(a, b),
{
    assert(shared_names(a, b) =~= Set::empty());
}

} // verus!
