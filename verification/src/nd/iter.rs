//! A simple iterator over the elements of a row-major array, carrying
//! the array's dimensions alongside.

use vstd::prelude::*;

verus! {

/// An iterator over copied elements. Its view is the sequence of
/// elements it has yet to yield.
#[derive(Debug)]
pub struct Iter<T> {
    items: Vec<T>,
    pos: usize,
    dims: Vec<usize>,
}

impl<T> Iter<T> {
    #[verifier::type_invariant]
    spec fn wf(self) -> bool {
        self.pos <= self.items@.len()
    }
}

impl<T> View for Iter<T> {
    type V = Seq<T>;

    closed spec fn view(&self) -> Seq<T> {
        self.items@.skip(self.pos as int)
    }
}

impl<T: Copy> Iter<T> {
    /// An iterator over `items`, remembering the dimensions `dims` of
    /// the array they came from.
    pub fn new(items: Vec<T>, dims: &[usize]) -> (r: Self)
        ensures
            r@ == items@,
    {
        let r = Iter { items, pos: 0, dims: vstd::slice::slice_to_vec(dims) };
        proof {
            assert(r@ =~= r.items@);
        }
        r
    }

    /// The next element, if any.
    pub fn next(&mut self) -> (r: Option<T>)
        ensures
            old(self)@.len() > 0 ==> r == Some(old(self)@[0]) && final(self)@ == old(
                self,
            )@.drop_first(),
            old(self)@.len() == 0 ==> r is None && final(self)@ == old(self)@,
    {
        proof {
            use_type_invariant(&*self);
        }
        if self.pos < self.items.len() {
            let x = self.items[self.pos];
            self.pos = self.pos + 1;
            proof {
                assert(old(self)@[0] == x);
                assert(self@ =~= old(self)@.drop_first());
            }
            Some(x)
        } else {
            proof {
                assert(self@ =~= old(self)@);
            }
            None
        }
    }

    /// The elements left, as a vector.
    pub fn collect(self) -> (r: Vec<T>)
        ensures
            r@ == self@,
    {
        proof {
            use_type_invariant(&self);
        }
        let mut r: Vec<T> = Vec::new();
        let mut i: usize = self.pos;
        proof {
            assert(r@ =~= self.items@.subrange(self.pos as int, i as int));
        }
        while i < self.items.len()
            invariant
                self.pos <= i <= self.items@.len(),
                r@ == self.items@.subrange(self.pos as int, i as int),
            decreases self.items@.len() - i,
        {
            r.push(self.items[i]);
            i = i + 1;
            proof {
                assert(r@ =~= self.items@.subrange(self.pos as int, i as int));
            }
        }
        proof {
            assert(r@ =~= self@);
        }
        r
    }
}

} // verus!
