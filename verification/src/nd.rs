//! Row-major arrays of rank one, two and three, with flat indexing
//! and element iteration.

use vstd::prelude::*;
use vstd::slice::slice_to_vec;

pub mod iter;

use iter::Iter;

verus! {

/// Marker for the row-major array types.
pub trait Array {

}

/// Row-major 3-dimensional array.
#[derive(Debug)]
pub struct A3<T: Copy> {
    shape: [usize; 3],
    data: Vec<T>,
}

/// Row-major 2-dimensional array.
#[derive(Debug)]
pub struct A2<T: Copy> {
    shape: [usize; 2],
    data: Vec<T>,
}

/// Row-major 1-dimensional array.
#[derive(Debug)]
pub struct A1<T: Copy> {
    shape: [usize; 1],
    data: Vec<T>,
}

impl<T: Copy> Array for A3<T> {

}

impl<T: Copy> Array for A2<T> {

}

impl<T: Copy> Array for A1<T> {

}

impl<T: Copy> A3<T> {
    /// The stored shape.
    pub closed spec fn shape_s(&self) -> Seq<usize> {
        self.shape@
    }

    /// The stored elements, in row-major order.
    pub closed spec fn data_s(&self) -> Seq<T> {
        self.data@
    }

    /// An array of the given shape over a row-major element slice.
    pub fn new(shape: [usize; 3], data: &[T]) -> (r: Self)
        ensures
            r.shape_s() == shape@,
            r.data_s() == data@,
    {
        Self { shape, data: slice_to_vec(data) }
    }

    /// An iterator over the elements in row-major order.
    pub fn iter(&self) -> (r: Iter<T>)
        ensures
            r@ == self.data_s(),
    {
        Iter::new(slice_to_vec(self.data.as_slice()), self.shape.as_slice())
    }

    /// The element at `[x, y, z]`, through the row-major formula.
    pub fn index(&self, idx: [usize; 3]) -> (r: T)
        requires
            self.shape_s()[1] * self.shape_s()[0] * idx@[2] + self.shape_s()[0] * idx@[1]
                + idx@[0] < self.data_s().len(),
        ensures
            r == self.data_s()[self.shape_s()[1] * self.shape_s()[0] * idx@[2]
                + self.shape_s()[0] * idx@[1] + idx@[0]],
    {
        let ghost s1 = self.shape@[1] as int;
        let ghost s0 = self.shape@[0] as int;
        let ghost i2 = idx@[2] as int;
        let ghost i1 = idx@[1] as int;
        let ghost i0 = idx@[0] as int;
        let nn: usize = self.data.len();
        let ghost n = self.data@.len() as int;
        proof {
            assert(n == nn);
            assert(s1 * s0 * i2 + s0 * i1 + i0 < n);
            assert(s0 * i1 >= 0) by (nonlinear_arith)
                requires
                    s0 >= 0,
                    i1 >= 0,
            ;
            assert(s1 * s0 * i2 >= 0) by (nonlinear_arith)
                requires
                    s1 >= 0,
                    s0 >= 0,
                    i2 >= 0,
            ;
            assert(s1 * s0 <= 0xFFFF_FFFF_FFFF_FFFF * 0xFFFF_FFFF_FFFF_FFFF)
                by (nonlinear_arith)
                requires
                    0 <= s1 <= 0xFFFF_FFFF_FFFF_FFFF,
                    0 <= s0 <= 0xFFFF_FFFF_FFFF_FFFF,
            ;
        }
        let p: u128 = (self.shape[1] as u128) * (self.shape[0] as u128);
        proof {
            assert(p as int == s1 * s0);
            assert((p as int) * i2 == s1 * s0 * i2);
            assert((p as int) * i2 < n);
        }
        let q: u128 = p * (idx[2] as u128);
        let flat: u128 = q + (self.shape[0] as u128) * (idx[1] as u128) + (idx[0] as u128);
        proof {
            assert(flat as int == s1 * s0 * i2 + s0 * i1 + i0);
        }
        self.data[flat as usize]
    }
}

impl<T: Copy> A2<T> {
    /// The stored shape.
    pub closed spec fn shape_s(&self) -> Seq<usize> {
        self.shape@
    }

    /// The stored elements, in row-major order.
    pub closed spec fn data_s(&self) -> Seq<T> {
        self.data@
    }

    /// An array of the given shape over a row-major element slice.
    pub fn new(shape: [usize; 2], data: &[T]) -> (r: Self)
        ensures
            r.shape_s() == shape@,
            r.data_s() == data@,
    {
        Self { shape, data: slice_to_vec(data) }
    }

    /// An iterator over the elements in row-major order.
    pub fn iter(&self) -> (r: Iter<T>)
        ensures
            r@ == self.data_s(),
    {
        Iter::new(slice_to_vec(self.data.as_slice()), self.shape.as_slice())
    }

    /// The element at `[x, y]`, through the row-major formula.
    pub fn index(&self, idx: [usize; 2]) -> (r: T)
        requires
            self.shape_s()[0] * idx@[1] + idx@[0] < self.data_s().len(),
        ensures
            r == self.data_s()[self.shape_s()[0] * idx@[1] + idx@[0]],
    {
        let ghost s0 = self.shape@[0] as int;
        let ghost i1 = idx@[1] as int;
        let ghost i0 = idx@[0] as int;
        let nn: usize = self.data.len();
        let ghost n = self.data@.len() as int;
        proof {
            assert(n == nn);
            assert(s0 * i1 + i0 < n);
            assert(s0 * i1 >= 0) by (nonlinear_arith)
                requires
                    s0 >= 0,
                    i1 >= 0,
            ;
        }
        let flat: usize = self.shape[0] * idx[1] + idx[0];
        self.data[flat]
    }
}

impl<T: Copy> A1<T> {
    /// The stored shape.
    pub closed spec fn shape_s(&self) -> Seq<usize> {
        self.shape@
    }

    /// The stored elements, in order.
    pub closed spec fn data_s(&self) -> Seq<T> {
        self.data@
    }

    /// An array of the given length over an element slice.
    pub fn new(shape: usize, data: &[T]) -> (r: Self)
        ensures
            r.shape_s() == seq![shape],
            r.data_s() == data@,
    {
        let r = Self { shape: [shape], data: slice_to_vec(data) };
        proof {
            assert(r.shape@ =~= seq![shape]);
        }
        r
    }

    /// An iterator over the elements in order.
    pub fn iter(&self) -> (r: Iter<T>)
        ensures
            r@ == self.data_s(),
    {
        Iter::new(slice_to_vec(self.data.as_slice()), self.shape.as_slice())
    }

    /// The element at `idx`.
    pub fn index(&self, idx: usize) -> (r: T)
        requires
            idx < self.data_s().len(),
        ensures
            r == self.data_s()[idx as int],
    {
        self.data[idx]
    }
}

} // verus!
