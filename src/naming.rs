use vstd::prelude::*;
use vstd::string::StringExecFns;
use crate::header::header_view;

verus! {

/// The 64-bit digest of a header's ordered column names under std's default
/// hasher.
pub uninterp spec fn header_digest(h: Seq<Seq<char>>) -> u64;

/// The lowercase hexadecimal digit of `d`, for `d < 16`.
pub open spec fn hex_digit(d: nat) -> char {
    seq!['0', '1', '2', '3', '4', '5', '6', '7', '8', '9', 'a', 'b', 'c', 'd', 'e', 'f'][d as int]
}

/// The lowest `width` hexadecimal digits of `n`, most significant first,
/// padded with zeros.
pub open spec fn hex_text(n: nat, width: nat) -> Seq<char>
    decreases width,
{
    if width == 0 {
        seq![]
    } else {
        hex_text(n / 16, (width - 1) as nat).push(hex_digit(n % 16))
    }
}

/// The name of the output file for a group of `members` tables whose merged
/// header has the digest `digest`.
pub open spec fn file_name(digest: u64, members: nat) -> Seq<char> {
    let kind = if members == 1 {
        "single_"@
    } else {
        "combined_"@
    };
    kind + hex_text(digest as nat, 16) + ".csv"@
}

/// The name of the output file for a group of `members` tables merged into
/// header `h`.
pub open spec fn output_name(h: Seq<Seq<char>>, members: nat) -> Seq<char> {
    file_name(header_digest(h), members)
}

/// Relies on `BuildHasher::hash_one` of std, with `DefaultHasher` built by
/// `Default`: it hashes the header (length, then each name in order) with the
/// fixed keys of `DefaultHasher::new`, so the digest is a function of the
/// names alone.
#[verifier::external_body]
fn digest_of(header: &[String]) -> (r: u64)
    ensures
        r == header_digest(header_view(header@)),
{
    let hasher = std::hash::BuildHasherDefault::<std::hash::DefaultHasher>::default();
    std::hash::BuildHasher::hash_one(&hasher, header)
}

/// Relies on std's `format!` with `{:016x}`: the lowercase hexadecimal form of
/// `n`, padded with zeros to sixteen digits.
#[verifier::external_body]
fn hex16(n: u64) -> (r: String)
    ensures
        r@ == hex_text(n as nat, 16),
{
    format!("{:016x}", n)
}

/// The digest of a header's ordered column names, as sixteen lowercase
/// hexadecimal digits.
pub fn generate_header_hash(header: &[String]) -> (r: String)
    ensures
        r@ == hex_text(header_digest(header_view(header@)) as nat, 16),
{
    hex16(digest_of(header))
}

/// The output file name for a group of `members` tables whose merged header
/// has digest `digest`: `single_` for one member, `combined_` otherwise, then
/// the digest in sixteen hexadecimal digits and `.csv`.
pub fn name_for_digest(digest: u64, members: usize) -> (r: String)
    ensures
        r@ == file_name(digest, members as nat),
{
    let mut name = if members == 1 {
        String::from_str("single_")
    } else {
        String::from_str("combined_")
    };
    let hex = hex16(digest);
    name.append(hex.as_str());
    name.append(".csv");
    name
}

/// The output file name for a group of `members` tables merged into `header`.
pub fn output_file_name(header: &[String], members: usize) -> (r: String)
    ensures
        r@ == output_name(header_view(header@), members as nat),
{
    name_for_digest(digest_of(header), members)
}

/// Equal merged headers, as ordered sequences, give groups of equal size the
/// same output name.
pub proof fn lemma_same_header_same_name(h1: Seq<Seq<char>>, h2: Seq<Seq<char>>, members: nat)
    requires
        h1 == h2,
    ensures
        output_name(h1, members) == output_name(h2, members),
{
}

/// Sixteen to the power `w`.
pub open spec fn pow16(w: nat) -> nat
    decreases w,
{
    if w == 0 {
        1
    } else {
        16 * pow16((w - 1) as nat)
    }
}

/// The value of a lowercase hexadecimal digit.
spec fn digit_value(c: char) -> nat {
    if c == '0' { 0 } else if c == '1' { 1 } else if c == '2' { 2 } else if c == '3' { 3 }
    else if c == '4' { 4 } else if c == '5' { 5 } else if c == '6' { 6 } else if c == '7' { 7 }
    else if c == '8' { 8 } else if c == '9' { 9 } else if c == 'a' { 10 } else if c == 'b' { 11 }
    else if c == 'c' { 12 } else if c == 'd' { 13 } else if c == 'e' { 14 } else { 15 }
}

proof fn lemma_digit_value(d: nat)
    requires
        d < 16,
    ensures
        digit_value(hex_digit(d)) == d,
{
}

proof fn lemma_hex_text_len(n: nat, w: nat)
    ensures
        hex_text(n, w).len() == w,
    decreases w,
{
    if w > 0 {
        lemma_hex_text_len(n / 16, (w - 1) as nat);
    }
}

/// Numbers below `16^w` have distinct `w`-digit forms.
proof fn lemma_hex_text_injective(n: nat, m: nat, w: nat)
    requires
        n < pow16(w),
        m < pow16(w),
        hex_text(n, w) == hex_text(m, w),
    ensures
        n == m,
    decreases w,
{
    if w > 0 {
        let p = pow16((w - 1) as nat);
        let tn = hex_text(n, w);
        let tm = hex_text(m, w);
        assert(tn.last() == tm.last());
        lemma_digit_value(n % 16);
        lemma_digit_value(m % 16);
        assert(tn.drop_last() =~= hex_text(n / 16, (w - 1) as nat));
        assert(tm.drop_last() =~= hex_text(m / 16, (w - 1) as nat));
        assert(n / 16 < p) by (nonlinear_arith)
            requires
                n < 16 * p,
        ;
        assert(m / 16 < p) by (nonlinear_arith)
            requires
                m < 16 * p,
        ;
        lemma_hex_text_injective(n / 16, m / 16, (w - 1) as nat);
        assert(n == 16 * (n / 16) + n % 16);
        assert(m == 16 * (m / 16) + m % 16);
    }
}

/// Equal output names come from groups of the same kind (one member, or
/// more) whose merged headers have equal digests. Different headers may still
/// share a digest: a 64-bit digest cannot tell all headers apart.
pub proof fn lemma_equal_names(h1: Seq<Seq<char>>, h2: Seq<Seq<char>>, m1: nat, m2: nat)
    requires
        output_name(h1, m1) == output_name(h2, m2),
    ensures
        (m1 == 1) == (m2 == 1),
        header_digest(h1) == header_digest(h2),
{
    reveal_strlit("single_");
    reveal_strlit("combined_");
    reveal_strlit(".csv");
    let d1 = header_digest(h1) as nat;
    let d2 = header_digest(h2) as nat;
    lemma_hex_text_len(d1, 16);
    lemma_hex_text_len(d2, 16);
    let n1 = output_name(h1, m1);
    let n2 = output_name(h2, m2);
    assert(n1.len() == n2.len());
    let k: int = if m1 == 1 {
        7
    } else {
        9
    };
    assert(n1.subrange(k, k + 16) =~= hex_text(d1, 16));
    assert(n2.subrange(k, k + 16) =~= hex_text(d2, 16));
    reveal_with_fuel(pow16, 17);
    assert(pow16(16) == 0x1_0000_0000_0000_0000);
    lemma_hex_text_injective(d1, d2, 16);
}

} // verus!
