use vstd::prelude::*;
use crate::grouping::{group_headers, grouping, groups_view, lemma_grouping_partition};
use crate::header::{dedup, header_view, headers_view, joined, merge_headers};
use crate::naming::{output_file_name, output_name};
use crate::remap::{map_rows_to_header, remapped_row};

verus! {

/// One output: its file name, its merged header and its realigned rows.
pub struct OutputTable {
    pub name: String,
    pub header: Vec<String>,
    pub rows: Vec<Vec<String>>,
}

/// Tables as rows of cells; row 0 of each is its header.
pub open spec fn tables_view(ts: Seq<Vec<Vec<String>>>) -> Seq<Seq<Seq<Seq<char>>>> {
    ts.map_values(|t: Vec<Vec<String>>| headers_view(t@))
}

/// The header of each table.
pub open spec fn first_rows(ts: Seq<Seq<Seq<Seq<char>>>>) -> Seq<Seq<Seq<char>>> {
    ts.map_values(|t: Seq<Seq<Seq<char>>>| t[0])
}

/// The headers of the members of group `g`, in member order.
pub open spec fn member_headers(ts: Seq<Seq<Seq<Seq<char>>>>, g: Seq<int>) -> Seq<Seq<Seq<char>>> {
    g.map_values(|m: int| ts[m][0])
}

/// The merged header of group `g`.
pub open spec fn merged_header(ts: Seq<Seq<Seq<Seq<char>>>>, g: Seq<int>) -> Seq<Seq<char>> {
    dedup(joined(member_headers(ts, g)))
}

/// The data rows of table `t`, realigned to `new`.
pub open spec fn table_rows(t: Seq<Seq<Seq<char>>>, new: Seq<Seq<char>>) -> Seq<Seq<Seq<char>>> {
    t.drop_first().map_values(|row: Seq<Seq<char>>| remapped_row(t[0], new, row))
}

/// The data rows of the members of group `g`, each realigned to `new`, one
/// member after another.
pub open spec fn group_rows(ts: Seq<Seq<Seq<Seq<char>>>>, g: Seq<int>, new: Seq<Seq<char>>) -> Seq<
    Seq<Seq<char>>,
>
    decreases g.len(),
{
    if g.len() == 0 {
        seq![]
    } else {
        group_rows(ts, g.drop_last(), new) + table_rows(ts[g.last()], new)
    }
}

/// Every row of a group's output has one cell for each column of the header
/// it was realigned to.
pub proof fn lemma_group_rows_width(ts: Seq<Seq<Seq<Seq<char>>>>, g: Seq<int>, new: Seq<Seq<char>>)
    ensures
        forall|r: int|
            0 <= r < group_rows(ts, g, new).len() ==> #[trigger] group_rows(ts, g, new)[r].len()
                == new.len(),
    decreases g.len(),
{
    if g.len() > 0 {
        lemma_group_rows_width(ts, g.drop_last(), new);
        let p = group_rows(ts, g.drop_last(), new);
        let t = table_rows(ts[g.last()], new);
        assert forall|r: int| 0 <= r < group_rows(ts, g, new).len() implies #[trigger] group_rows(
            ts,
            g,
            new,
        )[r].len() == new.len() by {
            if r >= p.len() {
                assert(group_rows(ts, g, new)[r] == t[r - p.len()]);
            } else {
                assert(group_rows(ts, g, new)[r] == p[r]);
            }
        }
    }
}

/// A copy of a row of cells.
fn copy_cells(h: &[String]) -> (r: Vec<String>)
    ensures
        r@ == h@,
{
    let mut r: Vec<String> = Vec::new();
    let mut i: usize = 0;
    while i < h.len()
        invariant
            0 <= i <= h@.len(),
            r@ == h@.take(i as int),
        decreases h@.len() - i,
    {
        r.push(h[i].clone());
        assert(r@ =~= h@.take(i + 1));
        i = i + 1;
    }
    assert(h@.take(h@.len() as int) =~= h@);
    r
}

/// Combines tables into one output per group of compatible headers. The
/// tables are grouped as `group_headers` does; each group's output has the
/// merged header of its members, the data rows of each member realigned to
/// that header, member after member, and the name that the merged header and
/// the group's size give.
pub fn combine_tables(tables: &[Vec<Vec<String>>]) -> (r: Vec<OutputTable>)
    requires
        forall|t: int| 0 <= t < tables@.len() ==> #[trigger] tables@[t]@.len() > 0,
    ensures
        ({
            let ts = tables_view(tables@);
            let gs = grouping(first_rows(ts), ts.len());
            &&& r@.len() == gs.len()
            &&& forall|g: int|
                0 <= g < gs.len() ==> {
                    let merged = merged_header(ts, gs[g]);
                    &&& header_view((#[trigger] r@[g]).header@) == merged
                    &&& headers_view(r@[g].rows@) == group_rows(ts, gs[g], merged)
                    &&& r@[g].name@ == output_name(merged, gs[g].len())
                }
        }),
{
    let ghost ts = tables_view(tables@);
    let mut headers: Vec<Vec<String>> = Vec::new();
    let mut t: usize = 0;
    while t < tables.len()
        invariant
            0 <= t <= tables@.len(),
            ts == tables_view(tables@),
            forall|u: int| 0 <= u < tables@.len() ==> #[trigger] tables@[u]@.len() > 0,
            headers@.len() == t,
            forall|u: int| 0 <= u < t ==> #[trigger] headers@[u]@ == tables@[u]@[0]@,
        decreases tables@.len() - t,
    {
        headers.push(copy_cells(tables[t][0].as_slice()));
        t = t + 1;
    }
    assert(headers_view(headers@) =~= first_rows(ts));
    let groups = group_headers(headers.as_slice());
    let ghost gs = groups_view(groups@);
    proof {
        lemma_grouping_partition(first_rows(ts), ts.len());
    }
    let mut out: Vec<OutputTable> = Vec::new();
    let mut g: usize = 0;
    while g < groups.len()
        invariant
            0 <= g <= groups@.len(),
            ts == tables_view(tables@),
            gs == groups_view(groups@),
            gs == grouping(first_rows(ts), ts.len()),
            crate::grouping::is_partition(gs, ts.len() as int),
            forall|u: int| 0 <= u < tables@.len() ==> #[trigger] tables@[u]@.len() > 0,
            headers@.len() == tables@.len(),
            forall|u: int| 0 <= u < tables@.len() ==> #[trigger] headers@[u]@ == tables@[u]@[0]@,
            out@.len() == g,
            forall|q: int|
                0 <= q < g ==> {
                    let merged = merged_header(ts, gs[q]);
                    &&& header_view((#[trigger] out@[q]).header@) == merged
                    &&& headers_view(out@[q].rows@) == group_rows(ts, gs[q], merged)
                    &&& out@[q].name@ == output_name(merged, gs[q].len())
                },
        decreases groups@.len() - g,
    {
        let group = &groups[g];
        let ghost gq = gs[g as int];
        assert(gq == group@.map_values(|x: usize| x as int));
        let mut member_hs: Vec<Vec<String>> = Vec::new();
        let mut k: usize = 0;
        while k < group.len()
            invariant
                0 <= k <= group@.len(),
                gq == group@.map_values(|x: usize| x as int),
                ts == tables_view(tables@),
                forall|m: int| 0 <= m < group@.len() ==> 0 <= #[trigger] gq[m] < tables@.len(),
                headers@.len() == tables@.len(),
                forall|u: int| 0 <= u < tables@.len() ==> #[trigger] headers@[u]@ == tables@[u]@[0]@,
                forall|u: int| 0 <= u < tables@.len() ==> #[trigger] tables@[u]@.len() > 0,
                member_hs@.len() == k,
                forall|m: int|
                    0 <= m < k ==> header_view((#[trigger] member_hs@[m])@) == ts[gq[m]][0],
            decreases group@.len() - k,
        {
            let idx = group[k];
            assert(gq[k as int] == idx as int);
            member_hs.push(copy_cells(headers[idx].as_slice()));
            k = k + 1;
        }
        assert(headers_view(member_hs@) =~= member_headers(ts, gq));
        let merged = merge_headers(member_hs.as_slice());
        let ghost mv = header_view(merged@);
        let mut rows: Vec<Vec<String>> = Vec::new();
        let mut k: usize = 0;
        assert(headers_view(rows@) =~= group_rows(ts, gq.take(0), mv));
        while k < group.len()
            invariant
                0 <= k <= group@.len(),
                gq == group@.map_values(|x: usize| x as int),
                ts == tables_view(tables@),
                mv == header_view(merged@),
                forall|m: int| 0 <= m < group@.len() ==> 0 <= #[trigger] gq[m] < tables@.len(),
                forall|u: int| 0 <= u < tables@.len() ==> #[trigger] tables@[u]@.len() > 0,
                headers_view(rows@) == group_rows(ts, gq.take(k as int), mv),
            decreases group@.len() - k,
        {
            let idx = group[k];
            assert(gq[k as int] == idx as int);
            let table = &tables[idx];
            let (_, body) = table.as_slice().split_at(1);
            let mut mapped = map_rows_to_header(table[0].as_slice(), merged.as_slice(), body);
            let ghost tv = ts[idx as int];
            assert(tv == headers_view(table@));
            assert(headers_view(mapped@) =~= table_rows(tv, mv));
            let ghost before = rows@;
            rows.append(&mut mapped);
            assert(gq.take(k + 1).drop_last() =~= gq.take(k as int));
            assert(headers_view(rows@) =~= headers_view(before) + table_rows(tv, mv));
            k = k + 1;
        }
        assert(gq.take(group@.len() as int) =~= gq);
        let name = output_file_name(merged.as_slice(), group.len());
        out.push(OutputTable { name, header: merged, rows });
        g = g + 1;
    }
    out
}

} // verus!
