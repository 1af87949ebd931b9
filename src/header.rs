use vstd::prelude::*;

verus! {

/// The column names of a header, as character sequences.
pub open spec fn header_view(h: Seq<String>) -> Seq<Seq<char>> {
    h.map_values(|s: String| s@)
}

/// The headers of several tables, each as its column names.
pub open spec fn headers_view(hs: Seq<Vec<String>>) -> Seq<Seq<Seq<char>>> {
    hs.map_values(|h: Vec<String>| header_view(h@))
}

/// All columns of the given headers, one header after another.
pub open spec fn joined(hs: Seq<Seq<Seq<char>>>) -> Seq<Seq<char>>
    decreases hs.len(),
{
    if hs.len() == 0 {
        seq![]
    } else {
        joined(hs.drop_last()) + hs.last()
    }
}

/// The names of `s` in order, each kept at its first occurrence only.
pub open spec fn dedup(s: Seq<Seq<char>>) -> Seq<Seq<char>>
    decreases s.len(),
{
    if s.len() == 0 {
        seq![]
    } else if s.drop_last().contains(s.last()) {
        dedup(s.drop_last())
    } else {
        dedup(s.drop_last()).push(s.last())
    }
}

/// `dedup` keeps exactly the names of its input, each once.
pub proof fn lemma_dedup(s: Seq<Seq<char>>)
    ensures
        dedup(s).no_duplicates(),
        forall|x: Seq<char>| dedup(s).contains(x) <==> s.contains(x),
        dedup(s).to_set() == s.to_set(),
        dedup(s).len() == s.to_set().len(),
    decreases s.len(),
{
    if s.len() > 0 {
        let p = s.drop_last();
        lemma_dedup(p);
        assert forall|x: Seq<char>| s.contains(x) <==> (p.contains(x) || x == s.last()) by {
            if s.contains(x) {
                let k = choose|k: int| 0 <= k < s.len() && s[k] == x;
                if k < s.len() - 1 {
                    assert(p[k] == x);
                }
            }
            if p.contains(x) {
                let k = choose|k: int| 0 <= k < p.len() && p[k] == x;
                assert(s[k] == x);
            }
            if x == s.last() {
                assert(s[s.len() - 1] == x);
            }
        }
        if !p.contains(s.last()) {
            let d = dedup(p);
            assert forall|x: Seq<char>| d.push(s.last()).contains(x) <==> (d.contains(x) || x
                == s.last()) by {
                if d.push(s.last()).contains(x) {
                    let k = choose|k: int| 0 <= k < d.len() + 1 && d.push(s.last())[k] == x;
                    if k < d.len() {
                        assert(d[k] == x);
                    }
                }
                if d.contains(x) {
                    let k = choose|k: int| 0 <= k < d.len() && d[k] == x;
                    assert(d.push(s.last())[k] == x);
                }
                if x == s.last() {
                    assert(d.push(s.last())[d.len() as int] == x);
                }
            }
        }
    }
    assert(dedup(s).to_set() =~= s.to_set());
    dedup(s).unique_seq_to_set();
}

/// Whether a column named `c` occurs in `h`.
pub fn contains_column(h: &[String], c: &String) -> (r: bool)
    ensures
        r == header_view(h@).contains(c@),
{
    let mut i: usize = 0;
    while i < h.len()
        invariant
            0 <= i <= h@.len(),
            forall|k: int| 0 <= k < i ==> h@[k]@ != c@,
        decreases h@.len() - i,
    {
        if h[i] == *c {
            assert(header_view(h@)[i as int] == c@);
            return true;
        }
        i = i + 1;
    }
    proof {
        if header_view(h@).contains(c@) {
            let k = choose|k: int| 0 <= k < h@.len() && header_view(h@)[k] == c@;
            assert(h@[k]@ == c@);
        }
    }
    false
}

/// Appends to `merged` each column of `cols` that it does not hold yet.
pub(crate) fn push_unseen(merged: &mut Vec<String>, cols: &[String], Ghost(prefix): Ghost<Seq<Seq<char>>>)
    requires
        header_view(old(merged)@) == dedup(prefix),
    ensures
        header_view(final(merged)@) == dedup(prefix + header_view(cols@)),
{
    let ghost cv = header_view(cols@);
    let mut j: usize = 0;
    while j < cols.len()
        invariant
            0 <= j <= cols@.len(),
            cv == header_view(cols@),
            header_view(merged@) == dedup(prefix + cv.take(j as int)),
        decreases cols@.len() - j,
    {
        let ghost before = prefix + cv.take(j as int);
        let ghost after = prefix + cv.take(j + 1);
        assert(after.drop_last() =~= before);
        assert(after.last() == cols@[j as int]@);
        proof {
            lemma_dedup(before);
        }
        if !contains_column(merged.as_slice(), &cols[j]) {
            merged.push(cols[j].clone());
            assert(header_view(merged@) =~= dedup(before).push(cols@[j as int]@));
        }
        j = j + 1;
    }
    assert(cv.take(cols@.len() as int) =~= cv);
}

/// The union of the given headers' columns, each name once, in the order in
/// which the names first occur when the headers are read one after another.
pub fn merge_headers(headers: &[Vec<String>]) -> (merged: Vec<String>)
    ensures
        header_view(merged@) == dedup(joined(headers_view(headers@))),
{
    let ghost hv = headers_view(headers@);
    let mut merged: Vec<String> = Vec::new();
    let mut i: usize = 0;
    assert(header_view(merged@) =~= dedup(joined(hv.take(0))));
    while i < headers.len()
        invariant
            0 <= i <= headers@.len(),
            hv == headers_view(headers@),
            header_view(merged@) == dedup(joined(hv.take(i as int))),
        decreases headers@.len() - i,
    {
        assert(hv.take(i + 1).drop_last() =~= hv.take(i as int));
        assert(hv[i as int] == header_view(headers@[i as int]@));
        push_unseen(&mut merged, headers[i].as_slice(), Ghost(joined(hv.take(i as int))));
        i = i + 1;
    }
    assert(hv.take(headers@.len() as int) =~= hv);
    merged
}

/// Merging a single header gives its names, each once, in order of first
/// occurrence.
pub proof fn lemma_merge_single(h: Seq<Seq<char>>)
    ensures
        dedup(joined(seq![h])) == dedup(h),
{
    let hs = seq![h];
    assert(hs.drop_last() =~= Seq::<Seq<Seq<char>>>::empty());
    assert(joined(hs.drop_last()) == Seq::<Seq<char>>::empty());
    assert(hs.last() == h);
    assert(joined(hs) =~= h);
}

/// Every column of every merged header is a column of the merged result.
pub proof fn lemma_merge_covers(hs: Seq<Seq<Seq<char>>>, k: int, x: Seq<char>)
    requires
        0 <= k < hs.len(),
        hs[k].contains(x),
    ensures
        dedup(joined(hs)).contains(x),
    decreases hs.len(),
{
    lemma_joined_contains(hs, k, x);
    lemma_dedup(joined(hs));
}

/// A column of one of the headers is a column of their concatenation.
proof fn lemma_joined_contains(hs: Seq<Seq<Seq<char>>>, k: int, x: Seq<char>)
    requires
        0 <= k < hs.len(),
        hs[k].contains(x),
    ensures
        joined(hs).contains(x),
    decreases hs.len(),
{
    let p = joined(hs.drop_last());
    if k < hs.len() - 1 {
        lemma_joined_contains(hs.drop_last(), k, x);
        let j = choose|j: int| 0 <= j < p.len() && p[j] == x;
        assert(joined(hs)[j] == x);
    } else {
        let j = choose|j: int| 0 <= j < hs.last().len() && hs.last()[j] == x;
        assert(joined(hs)[p.len() + j] == x);
    }
}

} // verus!
