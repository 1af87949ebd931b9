use vstd::prelude::*;
use crate::compat::{compatible, headers_are_compatible};
use crate::header::headers_view;

verus! {

/// Groups of table indices, as integers.
pub open spec fn groups_view(gs: Seq<Vec<usize>>) -> Seq<Seq<int>> {
    gs.map_values(|g: Vec<usize>| g@.map_values(|x: usize| x as int))
}

/// The first group of `gs` whose first member has a header compatible with
/// `h`, or `gs.len()` when there is none.
pub open spec fn first_fit(gs: Seq<Seq<int>>, hs: Seq<Seq<Seq<char>>>, h: Seq<Seq<char>>) -> int
    decreases gs.len(),
{
    if gs.len() == 0 {
        0
    } else {
        let f = first_fit(gs.drop_last(), hs, h);
        if f < gs.len() - 1 {
            f
        } else if compatible(h, hs[gs.last()[0]]) {
            gs.len() - 1
        } else {
            gs.len() as int
        }
    }
}

/// Table `i` joins the first group whose first member it is compatible with,
/// or starts a group of its own.
pub open spec fn place(gs: Seq<Seq<int>>, hs: Seq<Seq<Seq<char>>>, i: int) -> Seq<Seq<int>> {
    let f = first_fit(gs, hs, hs[i]);
    if f < gs.len() {
        gs.update(f, gs[f].push(i))
    } else {
        gs.push(seq![i])
    }
}

/// The groups that the first `n` tables form when each is placed in turn.
pub open spec fn grouping(hs: Seq<Seq<Seq<char>>>, n: nat) -> Seq<Seq<int>>
    decreases n,
{
    if n == 0 {
        seq![]
    } else {
        place(grouping(hs, (n - 1) as nat), hs, n - 1)
    }
}

/// Some group of `gs` holds `i`.
pub open spec fn in_some_group(gs: Seq<Seq<int>>, i: int) -> bool {
    exists|g: int| 0 <= g < gs.len() && #[trigger] gs[g].contains(i)
}

/// `gs` splits the indices `0..n` into non-empty groups: each index lies in
/// exactly one group, once, and the members of a group rise.
pub open spec fn is_partition(gs: Seq<Seq<int>>, n: int) -> bool {
    &&& forall|g: int| 0 <= g < gs.len() ==> #[trigger] gs[g].len() > 0
    &&& forall|g: int, m: int| 0 <= g < gs.len() && 0 <= m < gs[g].len() ==> 0 <= #[trigger] gs[g][m] < n
    &&& forall|g: int, m1: int, m2: int|
        0 <= g < gs.len() && 0 <= m1 < m2 < gs[g].len() ==> #[trigger] gs[g][m1] < #[trigger] gs[g][m2]
    &&& forall|i: int| 0 <= i < n ==> #[trigger] in_some_group(gs, i)
    &&& forall|g1: int, g2: int, i: int|
        0 <= g1 < gs.len() && 0 <= g2 < gs.len() && #[trigger] gs[g1].contains(i)
            && #[trigger] gs[g2].contains(i) ==> g1 == g2
}

/// Each member of a group has a header compatible with that of the group's
/// first member.
pub open spec fn members_fit(gs: Seq<Seq<int>>, hs: Seq<Seq<Seq<char>>>) -> bool {
    forall|g: int, m: int|
        0 <= g < gs.len() && 0 < m < gs[g].len() ==> compatible(hs[#[trigger] gs[g][m]], hs[gs[g][0]])
}

/// What `first_fit` finds.
pub proof fn lemma_first_fit(gs: Seq<Seq<int>>, hs: Seq<Seq<Seq<char>>>, h: Seq<Seq<char>>)
    ensures
        0 <= first_fit(gs, hs, h) <= gs.len(),
        first_fit(gs, hs, h) < gs.len() ==> compatible(h, hs[gs[first_fit(gs, hs, h)][0]]),
        forall|k: int| 0 <= k < first_fit(gs, hs, h) ==> !compatible(h, hs[#[trigger] gs[k][0]]),
    decreases gs.len(),
{
    if gs.len() > 0 {
        lemma_first_fit(gs.drop_last(), hs, h);
        assert forall|k: int| 0 <= k < first_fit(gs, hs, h) implies !compatible(
            h,
            hs[#[trigger] gs[k][0]],
        ) by {
            if k < gs.len() - 1 {
                assert(gs.drop_last()[k] == gs[k]);
            }
        }
    }
}

/// Placing table after table splits the indices `0..n` into groups, each
/// index in exactly one of them, and every member of a group is compatible
/// with the group's first member.
pub proof fn lemma_grouping_partition(hs: Seq<Seq<Seq<char>>>, n: nat)
    ensures
        is_partition(grouping(hs, n), n as int),
        members_fit(grouping(hs, n), hs),
    decreases n,
{
    if n > 0 {
        let i = n - 1;
        let gs = grouping(hs, (n - 1) as nat);
        lemma_grouping_partition(hs, (n - 1) as nat);
        lemma_first_fit(gs, hs, hs[i]);
        let f = first_fit(gs, hs, hs[i]);
        let ng = grouping(hs, n);
        assert(ng == place(gs, hs, i));
        assert forall|g: int, x: int| 0 <= g < ng.len() && #[trigger] ng[g].contains(x) implies (g
            < gs.len() && gs[g].contains(x)) || x == i by {
            let m = choose|m: int| 0 <= m < ng[g].len() && ng[g][m] == x;
            if g < gs.len() && m < gs[g].len() {
                assert(gs[g][m] == x);
            }
        }
        assert forall|g: int, x: int| 0 <= g < gs.len() && #[trigger] gs[g].contains(x) implies ng[g].contains(
            x,
        ) by {
            let m = choose|m: int| 0 <= m < gs[g].len() && gs[g][m] == x;
            assert(ng[g][m] == x);
        }
        let gi = if f < gs.len() {
            f
        } else {
            gs.len() as int
        };
        assert(ng[gi][ng[gi].len() - 1] == i);
        assert(ng[gi].contains(i));
        assert forall|x: int| 0 <= x < n implies #[trigger] in_some_group(ng, x) by {
            if x < i {
                assert(in_some_group(gs, x));
                let g = choose|g: int| 0 <= g < gs.len() && #[trigger] gs[g].contains(x);
                assert(ng[g].contains(x));
            } else {
                assert(ng[gi].contains(i));
            }
        }
        assert forall|g: int| 0 <= g < gs.len() implies !(#[trigger] gs[g]).contains(i) by {
            if gs[g].contains(i) {
                let m = choose|m: int| 0 <= m < gs[g].len() && gs[g][m] == i;
            }
        }
    }
}

/// Splits the tables into groups of compatible headers. The tables are taken
/// in order; each joins the first group, in order of creation, whose first
/// member has a compatible header, or else starts a new group.
pub fn group_headers(headers: &[Vec<String>]) -> (groups: Vec<Vec<usize>>)
    ensures
        groups_view(groups@) == grouping(headers_view(headers@), headers@.len() as nat),
{
    let ghost hv = headers_view(headers@);
    let mut groups: Vec<Vec<usize>> = Vec::new();
    let mut i: usize = 0;
    assert(groups_view(groups@) =~= grouping(hv, 0));
    while i < headers.len()
        invariant
            0 <= i <= headers@.len(),
            hv == headers_view(headers@),
            groups_view(groups@) == grouping(hv, i as nat),
        decreases headers@.len() - i,
    {
        let ghost gv = groups_view(groups@);
        proof {
            lemma_grouping_partition(hv, i as nat);
            lemma_first_fit(gv, hv, hv[i as int]);
        }
        let mut k: usize = 0;
        let mut placed = false;
        while k < groups.len()
            invariant_except_break
                !placed,
            invariant
                0 <= k <= groups@.len(),
                gv == groups_view(groups@),
                gv == grouping(hv, i as nat),
                hv == headers_view(headers@),
                i < headers@.len(),
                is_partition(gv, i as int),
                0 <= first_fit(gv, hv, hv[i as int]) <= gv.len(),
                first_fit(gv, hv, hv[i as int]) < gv.len() ==> compatible(
                    hv[i as int],
                    hv[gv[first_fit(gv, hv, hv[i as int])][0]],
                ),
                forall|q: int|
                    0 <= q < first_fit(gv, hv, hv[i as int]) ==> !compatible(
                        hv[i as int],
                        hv[#[trigger] gv[q][0]],
                    ),
                k <= first_fit(gv, hv, hv[i as int]),
            ensures
                placed ==> k == first_fit(gv, hv, hv[i as int]) && k < groups@.len(),
                !placed ==> first_fit(gv, hv, hv[i as int]) == gv.len(),
            decreases groups@.len() - k,
        {
            assert(gv[k as int].len() > 0);
            let rep = groups[k][0];
            assert(gv[k as int][0] == rep as int);
            assert(hv[i as int] == crate::header::header_view(headers@[i as int]@));
            assert(hv[rep as int] == crate::header::header_view(headers@[rep as int]@));
            if headers_are_compatible(headers[i].as_slice(), headers[rep].as_slice()) {
                assert(compatible(hv[i as int], hv[gv[k as int][0]]));
                placed = true;
                break;
            }
            k = k + 1;
        }
        if placed {
            let ghost before = groups@;
            groups[k].push(i);
            assert(groups@[k as int]@ == before[k as int]@.push(i));
            assert(groups@[k as int]@.map_values(|x: usize| x as int) =~= gv[k as int].push(
                i as int,
            ));
            assert forall|q: int| 0 <= q < groups@.len() && q != k implies groups@[q] == before[q] by {}
            assert(groups_view(groups@) =~= gv.update(k as int, gv[k as int].push(i as int)));
        } else {
            let single: Vec<usize> = vec![i];
            assert(single@.map_values(|x: usize| x as int) =~= seq![i as int]);
            groups.push(single);
            assert(groups_view(groups@) =~= gv.push(seq![i as int]));
        }
        i = i + 1;
    }
    groups
}

} // verus!
