use vstd::prelude::*;

use crate::size_hint::{checked_usize, sat_usize, SizeHint};

verus! {

/// The row-major sequence of pairs over two lists: every element of the
/// first paired with every element of the second.
pub open spec fn product_seq(a: Seq<i64>, b: Seq<i64>) -> Seq<(i64, i64)> {
    Seq::new((a.len() * b.len()) as nat, |k: int| (a[k / b.len() as int], b[k % b.len() as int]))
}

/// An iterator adaptor over the cartesian product of the element sets of
/// two lists.  Pairs come in row-major order, by `next`.
pub struct Product {
    a: Vec<i64>,
    b: Vec<i64>,
    ai: usize,
    bi: usize,
}

impl Product {
    /// The first list.
    pub closed spec fn elems_a(self) -> Seq<i64> {
        self.a@
    }

    /// The second list.
    pub closed spec fn elems_b(self) -> Seq<i64> {
        self.b@
    }

    /// How many pairs have been yielded.
    pub closed spec fn pos(self) -> int {
        self.ai * self.b@.len() + self.bi
    }

    /// The number of pairs altogether.
    pub open spec fn total(self) -> int {
        self.elems_a().len() as int * self.elems_b().len() as int
    }

    /// The cursor stays inside the product.
    pub closed spec fn wf(self) -> bool {
        &&& self.ai <= self.a@.len()
        &&& (self.bi < self.b@.len() || (self.b@.len() == 0 && self.bi == 0))
        &&& (self.ai == self.a@.len() ==> self.bi == 0)
    }

    /// A well-formed cursor's position lies between zero and the total.
    pub proof fn lemma_pos_bounds(self)
        requires
            self.wf(),
        ensures
            0 <= self.pos() <= self.total(),
    {
        let alen = self.a@.len() as int;
        let blen = self.b@.len() as int;
        if self.ai < self.a@.len() {
            vstd::arithmetic::mul::lemma_mul_inequality(self.ai as int, alen - 1, blen);
            assert((alen - 1) * blen == alen * blen - blen) by (nonlinear_arith);
        } else {
            assert(self.ai as int * blen == alen * blen);
        }
    }

    /// The next pair in row-major order, or nothing once the product is
    /// exhausted.
    pub fn next(&mut self) -> (r: Option<(i64, i64)>)
        requires
            old(self).wf(),
        ensures
            final(self).wf(),
            final(self).elems_a() == old(self).elems_a(),
            final(self).elems_b() == old(self).elems_b(),
            match r {
                Some(p) => old(self).pos() < old(self).total() && p == product_seq(
                    old(self).elems_a(),
                    old(self).elems_b(),
                )[old(self).pos()] && final(self).pos() == old(self).pos() + 1,
                None => old(self).pos() == old(self).total() && final(self).pos() == old(
                    self,
                ).pos(),
            },
    {
        let ghost alen = self.a@.len() as int;
        let ghost blen = self.b@.len() as int;
        if self.b.len() == 0 {
            proof {
                assert(self.ai as int * 0 == 0) by (nonlinear_arith);
                assert(alen * 0 == 0) by (nonlinear_arith);
            }
            return None;
        }
        if self.ai >= self.a.len() {
            return None;
        }
        let pair = (self.a[self.ai], self.b[self.bi]);
        proof {
            self.lemma_pos_bounds();
            vstd::arithmetic::mul::lemma_mul_inequality(self.ai as int, alen - 1, blen);
            assert((alen - 1) * blen == alen * blen - blen) by (nonlinear_arith);
            assert(self.pos() < self.total());
            vstd::arithmetic::div_mod::lemma_fundamental_div_mod_converse(
                self.pos(),
                blen,
                self.ai as int,
                self.bi as int,
            );
            assert(product_seq(self.a@, self.b@)[self.pos()] == pair);
        }
        let ghost oldpos = self.pos();
        self.bi = self.bi + 1;
        if self.bi == self.b.len() {
            self.bi = 0;
            let ghost oldai = self.ai as int;
            self.ai = self.ai + 1;
            proof {
                assert((oldai + 1) * blen == oldai * blen + blen) by (nonlinear_arith);
                assert(self.pos() == oldpos + 1);
            }
        }
        Some(pair)
    }

    /// How many pairs remain: exactly, when the count fits the machine
    /// word, else clamped below and absent above.
    pub fn size_hint(&self) -> (r: SizeHint)
        requires
            self.wf(),
        ensures
            r.0 as int == sat_usize(self.total() - self.pos()),
            r.1 == checked_usize(self.total() - self.pos()),
    {
        let ghost alen = self.a@.len() as int;
        let ghost blen = self.b@.len() as int;
        if self.b.len() == 0 {
            proof {
                assert(self.ai as int * 0 == 0) by (nonlinear_arith);
                assert(alen * 0 == 0) by (nonlinear_arith);
            }
            return (0, Some(0));
        }
        if self.ai >= self.a.len() {
            return (0, Some(0));
        }
        let a_rem = self.a.len() - self.ai - 1;
        let b_rem = self.b.len() - self.bi;
        let m = crate::size_hint::mul((a_rem, Some(a_rem)), (self.b.len(), Some(self.b.len())));
        let r = crate::size_hint::add(m, (b_rem, Some(b_rem)));
        proof {
            let remaining = self.total() - self.pos();
            assert((alen - self.ai as int - 1) * blen == (alen - self.ai as int) * blen - blen)
                by (nonlinear_arith);
            assert(a_rem as int == alen - self.ai as int - 1);
            assert((alen - self.ai as int) * blen == alen * blen - self.ai as int * blen)
                by (nonlinear_arith);
            assert(a_rem as int * blen + b_rem as int == remaining);
        }
        r
    }
}

/// The cartesian product of the element sets of two lists, as a fresh
/// adaptor positioned at the first pair.
pub fn cartesian_product(a: Vec<i64>, b: Vec<i64>) -> (r: Product)
    ensures
        r.wf(),
        r.elems_a() == a@,
        r.elems_b() == b@,
        r.pos() == 0,
{
    let r = Product { a, b, ai: 0, bi: 0 };
    proof {
        assert(0 * r.b@.len() as int == 0) by (nonlinear_arith);
    }
    r
}

/// Iterator-style adaptors for lists.
pub trait Itertools: Sized {
    /// The elements the adaptor pairs on the left.
    spec fn elems(self) -> Seq<i64>;

    /// An adaptor over the cartesian product of the element sets of `self`
    /// and `other`, yielding pairs in row-major order.
    fn cartesian_product(self, other: Vec<i64>) -> (r: Product)
        ensures
            r.wf(),
            r.elems_a() == self.elems(),
            r.elems_b() == other@,
            r.pos() == 0,
    ;
}

impl Itertools for Vec<i64> {
    open spec fn elems(self) -> Seq<i64> {
        self@
    }

    fn cartesian_product(self, other: Vec<i64>) -> (r: Product) {
        cartesian_product(self, other)
    }
}

} // verus!
