//! The reusable buffer that a detector reads its amplitudes from.

use vstd::prelude::*;

verus! {

/// A buffer of fixed length for the real parts of one transformed signal
/// window. Its length is set when it is made, is not zero and is kept by every
/// method; `init_fft_space` overwrites all of it.
pub struct FftSpace {
    space: Vec<i32>,
}

impl View for FftSpace {
    type V = Seq<i32>;

    closed spec fn view(&self) -> Seq<i32> {
        self.space@
    }
}

impl FftSpace {
    /// The buffer is never empty.
    pub open spec fn wf(&self) -> bool {
        self@.len() > 0
    }

    /// Makes a buffer of `len` zeros.
    pub fn new(len: usize) -> (r: Self)
        requires
            len > 0,
        ensures
            r.wf(),
            r@ == Seq::new(len as nat, |i: int| 0i32),
    {
        let mut space: Vec<i32> = Vec::new();
        let mut k: usize = 0;
        while k < len
            invariant
                k <= len,
                space@ == Seq::new(k as nat, |i: int| 0i32),
            decreases len - k,
        {
            space.push(0);
            k += 1;
            assert(space@ =~= Seq::new(k as nat, |i: int| 0i32));
        }
        FftSpace { space }
    }

    /// The length that the buffer was made with.
    pub fn len(&self) -> (r: usize)
        ensures
            r == self@.len(),
    {
        self.space.len()
    }

    /// Overwrites the whole buffer with `signal`, which has the buffer's
    /// length. Nothing of the earlier contents is left.
    pub fn init_fft_space(&mut self, signal: &Vec<i32>)
        requires
            signal@.len() == old(self)@.len(),
        ensures
            final(self)@ == signal@,
    {
        let n: usize = self.space.len();
        let mut k: usize = 0;
        while k < n
            invariant
                k <= n,
                n == signal@.len(),
                self.space@.len() == n,
                forall|j: int| 0 <= j < k ==> self.space@[j] == signal@[j],
            decreases n - k,
        {
            self.space.set(k, signal[k]);
            k += 1;
        }
        assert(self.space@ =~= signal@);
    }

    /// The amplitudes that the buffer holds.
    pub fn space(&self) -> (r: &Vec<i32>)
        ensures
            r@ == self@,
    {
        &self.space
    }

    /// Replaces every amplitude by what `f` makes of it.
    pub fn map<F: Fn(i32) -> i32>(&mut self, f: F)
        requires
            forall|j: int| 0 <= j < old(self)@.len() ==> f.requires((#[trigger] old(self)@[j],)),
        ensures
            final(self)@.len() == old(self)@.len(),
            forall|j: int| 0 <= j < old(self)@.len() ==> f.ensures((old(self)@[j],), #[trigger] final(self)@[j]),
    {
        let n: usize = self.space.len();
        let mut k: usize = 0;
        while k < n
            invariant
                k <= n,
                self.space@.len() == n,
                old(self)@.len() == n,
                forall|j: int| 0 <= j < n ==> f.requires((#[trigger] old(self)@[j],)),
                forall|j: int| 0 <= j < k ==> f.ensures((old(self)@[j],), #[trigger] self.space@[j]),
                forall|j: int| k <= j < n ==> self.space@[j] == old(self)@[j],
            decreases n - k,
        {
            assert(self.space@[k as int] == old(self)@[k as int]);
            let v: i32 = f(self.space[k]);
            self.space.set(k, v);
            k += 1;
        }
    }
}

} // verus!
