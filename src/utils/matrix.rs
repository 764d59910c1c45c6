//! Building rectangular grids cell by cell.
use vstd::prelude::*;

verus! {

/// A `w` by `h` grid (`r[x][y]`) whose cell `(x, y)` is `trans(x, y)`.
pub fn matrix_indexed<T, F: Fn(usize, usize) -> T>(w: usize, h: usize, trans: F) -> (r: Vec<Vec<T>>)
    requires
        forall|x: usize, y: usize| x < w && y < h ==> call_requires(trans, (x, y)),
    ensures
        r@.len() == w,
        forall|x: int| 0 <= x < w ==> (#[trigger] r@[x])@.len() == h,
        forall|x: int, y: int|
            0 <= x < w && 0 <= y < h ==> call_ensures(trans, (x as usize, y as usize), #[trigger] r@[x]@[y]),
{
    let mut rows: Vec<Vec<T>> = Vec::new();
    let mut x: usize = 0;
    while x < w
        invariant
            0 <= x <= w,
            rows@.len() == x,
            forall|x: usize, y: usize| x < w && y < h ==> call_requires(trans, (x, y)),
            forall|i: int| 0 <= i < x ==> (#[trigger] rows@[i])@.len() == h,
            forall|i: int, j: int|
                0 <= i < x && 0 <= j < h ==> call_ensures(trans, (i as usize, j as usize), #[trigger] rows@[i]@[j]),
        decreases w - x,
    {
        let mut row: Vec<T> = Vec::new();
        let mut y: usize = 0;
        while y < h
            invariant
                0 <= x < w,
                0 <= y <= h,
                row@.len() == y,
                forall|x: usize, y: usize| x < w && y < h ==> call_requires(trans, (x, y)),
                forall|j: int| 0 <= j < y ==> call_ensures(trans, (x, j as usize), #[trigger] row@[j]),
            decreases h - y,
        {
            row.push(trans(x, y));
            y = y + 1;
        }
        rows.push(row);
        x = x + 1;
    }
    rows
}

/// A `w` by `h` grid (`r[x][y]`) whose cells are each made by a call of `trans`.
pub fn matrix<T, F: Fn() -> T>(w: usize, h: usize, trans: F) -> (r: Vec<Vec<T>>)
    requires
        call_requires(trans, ()),
    ensures
        r@.len() == w,
        forall|x: int| 0 <= x < w ==> (#[trigger] r@[x])@.len() == h,
        forall|x: int, y: int| 0 <= x < w && 0 <= y < h ==> call_ensures(trans, (), #[trigger] r@[x]@[y]),
{
    let mut rows: Vec<Vec<T>> = Vec::new();
    let mut x: usize = 0;
    while x < w
        invariant
            0 <= x <= w,
            rows@.len() == x,
            call_requires(trans, ()),
            forall|i: int| 0 <= i < x ==> (#[trigger] rows@[i])@.len() == h,
            forall|i: int, j: int| 0 <= i < x && 0 <= j < h ==> call_ensures(trans, (), #[trigger] rows@[i]@[j]),
        decreases w - x,
    {
        let mut row: Vec<T> = Vec::new();
        let mut y: usize = 0;
        while y < h
            invariant
                0 <= y <= h,
                row@.len() == y,
                call_requires(trans, ()),
                forall|j: int| 0 <= j < y ==> call_ensures(trans, (), #[trigger] row@[j]),
            decreases h - y,
        {
            row.push(trans());
            y = y + 1;
        }
        rows.push(row);
        x = x + 1;
    }
    rows
}

} // verus!
