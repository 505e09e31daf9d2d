//! Selecting and arranging time-domain samples: the centred window kept from
//! an oversampled inverse FFT, and the row-major layout of the per-antenna
//! sample rows written to the output dataset.

use vstd::prelude::*;

verus! {

/// First sample kept when a window of `size` samples is taken from the
/// middle of `len` samples: half the excess, rounded down.
pub open spec fn window_start(len: nat, size: nat) -> nat {
    ((len - size) / 2) as nat
}

/// The `size` samples in the middle of `samples`: the excess
/// `samples.len() - size` is dropped, half of it (rounded down) from the
/// front and the rest from the back.
pub fn centered_window<T: Copy>(samples: &[T], size: usize) -> (r: Vec<T>)
    requires
        size <= samples@.len(),
    ensures
        r@ == samples@.subrange(
            window_start(samples@.len(), size as nat) as int,
            window_start(samples@.len(), size as nat) + size,
        ),
        window_start(samples@.len(), size as nat) <= samples@.len() - size - window_start(samples@.len(), size as nat),
        samples@.len() - size - window_start(samples@.len(), size as nat) <= window_start(samples@.len(), size as nat) + 1,
{
    let excess = samples.len() - size;
    let start = excess / 2;
    let mut out: Vec<T> = Vec::new();
    let mut i: usize = 0;
    while i < size
        invariant
            start == window_start(samples@.len(), size as nat),
            start + size <= samples@.len(),
            samples@.len() <= usize::MAX,
            i <= size,
            out@ == samples@.subrange(start as int, start + i),
        decreases size - i,
    {
        out.push(samples[start + i]);
        i = i + 1;
        assert(out@ =~= samples@.subrange(start as int, start + i));
    }
    out
}

/// The rows' contents, row by row.
pub open spec fn rows_view<T>(rows: Seq<Vec<T>>) -> Seq<Seq<T>> {
    rows.map_values(|row: Vec<T>| row@)
}

/// Lays out `rows` row after row: returns the number of rows, the length of
/// the first row, and all samples concatenated in row order.
pub fn row_major<T: Copy>(rows: &Vec<Vec<T>>) -> (r: (usize, usize, Vec<T>))
    requires
        rows@.len() > 0,
    ensures
        r.0 == rows@.len(),
        r.1 == rows@[0]@.len(),
        r.2@ == rows_view(rows@).flatten(),
{
    let ghost view = rows_view(rows@);
    let mut flat: Vec<T> = Vec::new();
    let mut i: usize = 0;
    assert(view.take(0).flatten_alt() =~= Seq::<T>::empty());
    while i < rows.len()
        invariant
            view == rows_view(rows@),
            i <= rows@.len(),
            flat@ == view.take(i as int).flatten_alt(),
        decreases rows@.len() - i,
    {
        let row = &rows[i];
        let mut j: usize = 0;
        while j < row.len()
            invariant
                view == rows_view(rows@),
                i < rows@.len(),
                *row == rows@[i as int],
                j <= row@.len(),
                flat@ == view.take(i as int).flatten_alt() + row@.take(j as int),
            decreases row@.len() - j,
        {
            flat.push(row[j]);
            j = j + 1;
            assert(row@.take(j as int) =~= row@.take(j - 1).push(row@[j - 1]));
            assert(flat@ =~= view.take(i as int).flatten_alt() + row@.take(j as int));
        }
        assert(view.take(i + 1).drop_last() =~= view.take(i as int));
        assert(view.take(i + 1).last() == row@);
        assert(row@.take(j as int) =~= row@);
        i = i + 1;
    }
    assert(view.take(rows@.len() as int) =~= view);
    proof {
        view.lemma_flatten_and_flatten_alt_are_equivalent();
    }
    (rows.len(), rows[0].len(), flat)
}

} // verus!
