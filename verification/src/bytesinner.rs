//! The bytes of a byte array, and what can be computed from them.
use vstd::prelude::*;

verus! {

/// The contents of a byte array.
#[derive(Debug)]
pub struct PyBytesInner {
    pub elements: Vec<u8>,
}

impl View for PyBytesInner {
    type V = Seq<u8>;

    open spec fn view(&self) -> Seq<u8> {
        self.elements@
    }
}

/// `s` repeated `n` times.
pub open spec fn repeated(s: Seq<u8>, n: nat) -> Seq<u8>
    decreases n,
{
    if n == 0 {
        Seq::empty()
    } else {
        repeated(s, (n - 1) as nat) + s
    }
}

impl PyBytesInner {
    /// Repeats the contents `n` times.
    pub(crate) fn repeat_in_place(&mut self, n: usize)
        requires
            n > 0,
            old(self)@.len() * n <= isize::MAX,
        ensures
            final(self)@ == repeated(old(self)@, n as nat),
    {
        let old_elements = self.elements.clone();
        let ghost s = self@;
        assert(old_elements@ =~= s);
        assert((n - 1) * s.len() <= s.len() * n) by (nonlinear_arith)
            requires
                n > 0,
        ;
        self.elements.reserve((n - 1) * old_elements.len());
        let mut k: usize = 1;
        proof {
            reveal_with_fuel(repeated, 2);
            assert(s =~= Seq::<u8>::empty() + s);
        }
        while k < n
            invariant
                1 <= k <= n,
                old_elements@ == s,
                self@ == repeated(s, k as nat),
            decreases n - k,
        {
            let ghost before = self@;
            self.elements.extend_from_slice(old_elements.as_slice());
            assert(self@ =~= before + s);
            k += 1;
        }
    }

    /// Reverses the order of the bytes.
    pub(crate) fn reverse(&mut self)
        ensures
            final(self)@ == old(self)@.reverse(),
    {
        let ghost s = self@;
        let len: usize = self.elements.len();
        let mut i: usize = 0;
        while i < len / 2
            invariant
                len == s.len(),
                self@.len() == len,
                i <= len / 2,
                forall|j: int|
                    0 <= j < len ==> #[trigger] self@[j] == if j < i || j >= len - i {
                        s[len - 1 - j]
                    } else {
                        s[j]
                    },
            decreases len / 2 - i,
        {
            let front: u8 = self.elements[i];
            let back: u8 = self.elements[len - 1 - i];
            self.elements.set(i, back);
            self.elements.set(len - 1 - i, front);
            i += 1;
        }
        assert(self@ =~= s.reverse());
    }
}

} // verus!
