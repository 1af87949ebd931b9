use vstd::prelude::*;
use crate::header::header_view;

verus! {

/// The index of the last column of `h` named `c`, or -1 when there is none.
pub open spec fn last_position(h: Seq<Seq<char>>, c: Seq<char>) -> int
    decreases h.len(),
{
    if h.len() == 0 {
        -1
    } else if h.last() == c {
        h.len() - 1
    } else {
        last_position(h.drop_last(), c)
    }
}

/// The cell of column `c` in a row laid out by `old`: the cell under the last
/// column of that name, or empty text when the name is missing or the row is
/// too short to reach it.
pub open spec fn remapped_cell(old: Seq<Seq<char>>, row: Seq<Seq<char>>, c: Seq<char>) -> Seq<char> {
    let p = last_position(old, c);
    if 0 <= p < row.len() {
        row[p]
    } else {
        seq![]
    }
}

/// A row laid out by `old`, realigned to the columns of `new`.
pub open spec fn remapped_row(old: Seq<Seq<char>>, new: Seq<Seq<char>>, row: Seq<Seq<char>>) -> Seq<
    Seq<char>,
> {
    new.map_values(|c: Seq<char>| remapped_cell(old, row, c))
}

/// What `last_position` finds.
pub proof fn lemma_last_position(h: Seq<Seq<char>>, c: Seq<char>)
    ensures
        -1 <= last_position(h, c) < h.len(),
        last_position(h, c) == -1 <==> !h.contains(c),
        last_position(h, c) >= 0 ==> h[last_position(h, c)] == c,
        forall|k: int| last_position(h, c) < k < h.len() ==> h[k] != c,
    decreases h.len(),
{
    if h.len() > 0 {
        let p = h.drop_last();
        lemma_last_position(p, c);
        if h.last() != c {
            assert forall|k: int| 0 <= k < h.len() && h[k] == c implies p.contains(c) by {
                assert(p[k] == c);
            }
            if p.contains(c) {
                let k = choose|k: int| 0 <= k < p.len() && p[k] == c;
                assert(h[k] == c);
            }
            assert forall|k: int| last_position(h, c) < k < h.len() implies h[k] != c by {
                if k < h.len() - 1 {
                    assert(p[k] == h[k]);
                }
            }
        } else {
            assert(h[h.len() - 1] == c);
        }
    }
}

/// The index of the last column of `h` named `c`, if any.
fn find_last(h: &[String], c: &String) -> (r: Option<usize>)
    ensures
        match r {
            Some(p) => p == last_position(header_view(h@), c@),
            None => last_position(header_view(h@), c@) == -1,
        },
{
    let ghost hv = header_view(h@);
    let mut found: Option<usize> = None;
    let mut i: usize = 0;
    while i < h.len()
        invariant
            0 <= i <= h@.len(),
            hv == header_view(h@),
            match found {
                Some(p) => p == last_position(hv.take(i as int), c@),
                None => last_position(hv.take(i as int), c@) == -1,
            },
        decreases h@.len() - i,
    {
        assert(hv.take(i + 1).drop_last() =~= hv.take(i as int));
        if h[i] == *c {
            found = Some(i);
        }
        i = i + 1;
    }
    assert(hv.take(h@.len() as int) =~= hv);
    found
}

/// Realigns `rows`, laid out by `old_header`, to the columns of `new_header`.
/// Each cell is copied from the last column of the same name in
/// `old_header`; it is empty where `old_header` lacks the name or the row is
/// too short to hold that column. Every row that comes out has one cell for
/// each column of `new_header`.
pub fn map_rows_to_header(old_header: &[String], new_header: &[String], rows: &[Vec<String>]) -> (r:
    Vec<Vec<String>>)
    ensures
        r@.len() == rows@.len(),
        forall|i: int| 0 <= i < r@.len() ==> #[trigger] r@[i]@.len() == new_header@.len(),
        forall|i: int|
            0 <= i < r@.len() ==> header_view(#[trigger] r@[i]@) == remapped_row(
                header_view(old_header@),
                header_view(new_header@),
                header_view(rows@[i]@),
            ),
{
    let ghost ov = header_view(old_header@);
    let ghost nv = header_view(new_header@);
    let mut positions: Vec<Option<usize>> = Vec::new();
    let mut j: usize = 0;
    while j < new_header.len()
        invariant
            0 <= j <= new_header@.len(),
            ov == header_view(old_header@),
            nv == header_view(new_header@),
            positions@.len() == j,
            forall|k: int|
                0 <= k < j ==> match #[trigger] positions@[k] {
                    Some(p) => p == last_position(ov, nv[k]),
                    None => last_position(ov, nv[k]) == -1,
                },
        decreases new_header@.len() - j,
    {
        positions.push(find_last(old_header, &new_header[j]));
        j = j + 1;
    }
    let mut out: Vec<Vec<String>> = Vec::new();
    let mut i: usize = 0;
    while i < rows.len()
        invariant
            0 <= i <= rows@.len(),
            ov == header_view(old_header@),
            nv == header_view(new_header@),
            positions@.len() == nv.len(),
            forall|k: int|
                0 <= k < nv.len() ==> match #[trigger] positions@[k] {
                    Some(p) => p == last_position(ov, nv[k]),
                    None => last_position(ov, nv[k]) == -1,
                },
            out@.len() == i,
            forall|q: int| 0 <= q < i ==> #[trigger] out@[q]@.len() == nv.len(),
            forall|q: int|
                0 <= q < i ==> header_view(#[trigger] out@[q]@) == remapped_row(
                    ov,
                    nv,
                    header_view(rows@[q]@),
                ),
        decreases rows@.len() - i,
    {
        let row = &rows[i];
        let ghost rv = header_view(row@);
        let mut cells: Vec<String> = Vec::new();
        let mut k: usize = 0;
        while k < positions.len()
            invariant
                0 <= k <= positions@.len(),
                positions@.len() == nv.len(),
                rv == header_view(row@),
                forall|m: int|
                    0 <= m < nv.len() ==> match #[trigger] positions@[m] {
                        Some(p) => p == last_position(ov, nv[m]),
                        None => last_position(ov, nv[m]) == -1,
                    },
                cells@.len() == k,
                forall|m: int| 0 <= m < k ==> #[trigger] cells@[m]@ == remapped_cell(ov, rv, nv[m]),
            decreases positions@.len() - k,
        {
            let cell = match positions[k] {
                Some(p) => {
                    if p < row.len() {
                        row[p].clone()
                    } else {
                        String::new()
                    }
                },
                None => String::new(),
            };
            cells.push(cell);
            k = k + 1;
        }
        assert(header_view(cells@) =~= remapped_row(ov, nv, rv));
        out.push(cells);
        i = i + 1;
    }
    out
}

/// Realigning rows to their own header changes nothing, where the header
/// names each column once and the row has one cell for each column.
pub proof fn lemma_remap_own_header(h: Seq<Seq<char>>, row: Seq<Seq<char>>)
    requires
        h.no_duplicates(),
        row.len() == h.len(),
    ensures
        remapped_row(h, h, row) == row,
{
    assert forall|j: int| 0 <= j < h.len() implies #[trigger] remapped_row(h, h, row)[j]
        == row[j] by {
        lemma_last_position(h, h[j]);
        assert(h.contains(h[j]));
    }
    assert(remapped_row(h, h, row) =~= row);
}

/// A realigned row has one cell for each column of the header it is
/// realigned to, whatever the shape of the row it came from.
pub proof fn lemma_remapped_row_len(old: Seq<Seq<char>>, new: Seq<Seq<char>>, row: Seq<Seq<char>>)
    ensures
        remapped_row(old, new, row).len() == new.len(),
{
}

} // verus!
