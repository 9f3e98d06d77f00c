//! The plain-text grayscale image format ("P2") used to carry integer
//! coordinate grids to the transcoding engine.
use vstd::prelude::*;

verus! {

/// ASCII digits of a natural number, most significant first.
pub open spec fn nat_decimal(n: nat) -> Seq<u8>
    decreases n,
{
    if n < 10 {
        seq![(48 + n) as u8]
    } else {
        nat_decimal(n / 10) + seq![(48 + n % 10) as u8]
    }
}

/// ASCII text of an integer: a leading `-` for negative values, then the digits.
pub open spec fn int_decimal(i: int) -> Seq<u8> {
    if i < 0 {
        seq![45u8] + nat_decimal((-i) as nat)
    } else {
        nat_decimal(i as nat)
    }
}

pub open spec fn is_digit(b: u8) -> bool {
    48 <= b <= 57
}

/// One row of the image: each value followed by a single space.
pub open spec fn row_text(cells: Seq<int>) -> Seq<u8>
    decreases cells.len(),
{
    if cells.len() == 0 {
        Seq::empty()
    } else {
        row_text(cells.drop_last()) + int_decimal(cells.last()) + seq![32u8]
    }
}

/// All rows of the image, each ended by a newline.
pub open spec fn rows_text(rows: Seq<Seq<int>>) -> Seq<u8>
    decreases rows.len(),
{
    if rows.len() == 0 {
        Seq::empty()
    } else {
        rows_text(rows.drop_last()) + row_text(rows.last()) + seq![10u8]
    }
}

/// `P2 <width> <height> 65535` and a newline.
pub open spec fn header_text(width: nat, height: nat) -> Seq<u8> {
    seq![80u8, 50u8, 32u8] + nat_decimal(width) + seq![32u8] + nat_decimal(height) + seq![
        32u8,
        54u8,
        53u8,
        53u8,
        51u8,
        53u8,
        10u8,
    ]
}

/// The whole image for a grid of `height` rows of `width` values.
pub open spec fn image_text(width: nat, height: nat, rows: Seq<Seq<int>>) -> Seq<u8> {
    header_text(width, height) + rows_text(rows)
}

/// Every character of a decimal number is a digit.
pub proof fn lemma_nat_decimal_digits(n: nat)
    ensures
        nat_decimal(n).len() >= 1,
        forall|i: int| 0 <= i < nat_decimal(n).len() ==> is_digit(#[trigger] nat_decimal(n)[i]),
    decreases n,
{
    if n >= 10 {
        lemma_nat_decimal_digits(n / 10);
    }
}

/// How many times byte `b` occurs in `s`.
pub open spec fn count_of(s: Seq<u8>, b: u8) -> nat
    decreases s.len(),
{
    if s.len() == 0 {
        0
    } else {
        count_of(s.drop_last(), b) + if s.last() == b {
            1nat
        } else {
            0nat
        }
    }
}

pub proof fn lemma_count_of_add(s: Seq<u8>, t: Seq<u8>, b: u8)
    ensures
        count_of(s + t, b) == count_of(s, b) + count_of(t, b),
    decreases t.len(),
{
    if t.len() == 0 {
        assert(s + t =~= s);
    } else {
        lemma_count_of_add(s, t.drop_last(), b);
        assert((s + t).drop_last() =~= s + t.drop_last());
    }
}

proof fn lemma_count_of_absent(s: Seq<u8>, b: u8)
    requires
        forall|i: int| 0 <= i < s.len() ==> s[i] != b,
    ensures
        count_of(s, b) == 0,
    decreases s.len(),
{
    if s.len() > 0 {
        lemma_count_of_absent(s.drop_last(), b);
    }
}

/// The text of a number holds neither a space nor a newline.
pub proof fn lemma_int_decimal_is_one_token(i: int)
    ensures
        int_decimal(i).len() >= 1,
        count_of(int_decimal(i), 32u8) == 0,
        count_of(int_decimal(i), 10u8) == 0,
{
    let n: nat = if i < 0 { (-i) as nat } else { i as nat };
    lemma_nat_decimal_digits(n);
    let s = int_decimal(i);
    assert forall|k: int| 0 <= k < s.len() implies s[k] != 32u8 && s[k] != 10u8 by {
        if i < 0 && k > 0 {
            assert(s[k] == nat_decimal(n)[k - 1]);
        }
    }
    lemma_count_of_absent(s, 32u8);
    lemma_count_of_absent(s, 10u8);
}

/// A row holds exactly one space per value (each after its value) and no newline.
pub proof fn lemma_row_text_tokens(cells: Seq<int>)
    ensures
        count_of(row_text(cells), 32u8) == cells.len(),
        count_of(row_text(cells), 10u8) == 0,
    decreases cells.len(),
{
    if cells.len() > 0 {
        lemma_row_text_tokens(cells.drop_last());
        lemma_int_decimal_is_one_token(cells.last());
        let a = row_text(cells.drop_last());
        let b = int_decimal(cells.last());
        lemma_count_of_add(a, b, 32u8);
        lemma_count_of_add(a, b, 10u8);
        lemma_count_of_add(a + b, seq![32u8], 32u8);
        lemma_count_of_add(a + b, seq![32u8], 10u8);
        assert(seq![32u8].drop_last() =~= Seq::<u8>::empty());
        assert(seq![32u8].last() == 32u8);
        assert(count_of(Seq::<u8>::empty(), 32u8) == 0);
        assert(count_of(Seq::<u8>::empty(), 10u8) == 0);
        assert(count_of(seq![32u8], 32u8) == 1);
        assert(count_of(seq![32u8], 10u8) == 0);
        assert(row_text(cells) == a + b + seq![32u8]);
    }
}

/// The rows' text holds exactly one newline per row.
pub proof fn lemma_rows_text_lines(rows: Seq<Seq<int>>)
    ensures
        count_of(rows_text(rows), 10u8) == rows.len(),
    decreases rows.len(),
{
    if rows.len() > 0 {
        lemma_rows_text_lines(rows.drop_last());
        lemma_row_text_tokens(rows.last());
        let a = rows_text(rows.drop_last());
        let b = row_text(rows.last());
        lemma_count_of_add(a, b, 10u8);
        lemma_count_of_add(a + b, seq![10u8], 10u8);
        assert(seq![10u8].drop_last() =~= Seq::<u8>::empty());
        assert(seq![10u8].last() == 10u8);
        assert(count_of(Seq::<u8>::empty(), 32u8) == 0);
        assert(count_of(Seq::<u8>::empty(), 10u8) == 0);
        assert(count_of(seq![10u8], 10u8) == 1);
        assert(rows_text(rows) == a + b + seq![10u8]);
    }
}

/// Appends the decimal digits of `n`.
pub fn push_nat_decimal(out: &mut Vec<u8>, n: u64)
    ensures
        final(out)@ == old(out)@ + nat_decimal(n as nat),
    decreases n,
{
    if n >= 10 {
        push_nat_decimal(out, n / 10);
    }
    let d: u8 = (n % 10) as u8;
    out.push(48u8 + d);
    proof {
        assert(final(out)@ =~= old(out)@ + nat_decimal(n as nat));
    }
}

/// Appends the decimal text of `v`, with a leading `-` when negative.
pub fn push_int_decimal(out: &mut Vec<u8>, v: i64)
    ensures
        final(out)@ == old(out)@ + int_decimal(v as int),
{
    if v < 0 {
        out.push(45u8);
        let m: u64 = (-(v as i128)) as u64;
        push_nat_decimal(out, m);
        proof {
            assert(final(out)@ =~= old(out)@ + int_decimal(v as int));
        }
    } else {
        push_nat_decimal(out, v as u64);
    }
}

/// Appends the image header for the given dimensions.
pub fn push_header(out: &mut Vec<u8>, width: u32, height: u32)
    ensures
        final(out)@ == old(out)@ + header_text(width as nat, height as nat),
{
    out.push(80u8);
    out.push(50u8);
    out.push(32u8);
    push_nat_decimal(out, width as u64);
    out.push(32u8);
    push_nat_decimal(out, height as u64);
    out.push(32u8);
    out.push(54u8);
    out.push(53u8);
    out.push(53u8);
    out.push(51u8);
    out.push(53u8);
    out.push(10u8);
    proof {
        assert(final(out)@ =~= old(out)@ + header_text(width as nat, height as nat));
    }
}

} // verus!
