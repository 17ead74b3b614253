//! User-side helpers around the system calls: putting together an argument
//! that the kernel hands out in chunks.

use vstd::prelude::*;

verus! {

/// Size of the buffer an argument is read with.
pub const ARG_CHUNK: usize = 64;

/// An argument being read: every chunk buffer received so far, whole, and
/// the number of bytes the kernel said it filled.
pub struct ArgReader {
    pub bytes: Vec<u8>,
    pub total: usize,
}

/// What reading ends with: the received bytes cut to the number filled.
pub open spec fn arg_result(bytes: Seq<u8>, total: nat) -> Seq<u8> {
    if bytes.len() > total {
        bytes.take(total as int)
    } else {
        bytes
    }
}

impl ArgReader {
    /// Nothing read yet.
    pub fn new() -> (r: ArgReader)
        ensures
            r.bytes@ == Seq::<u8>::empty(),
            r.total == 0,
    {
        ArgReader { bytes: Vec::new(), total: 0 }
    }

    /// Takes in a buffer the kernel filled with `read` bytes. A read of
    /// nothing ends the argument (`true`); otherwise the whole buffer is
    /// kept and `read` added to the total.
    ///
    /// Panics (excluded by the precondition) if the total overflows.
    pub fn absorb(&mut self, buf: &[u8; 64], read: usize) -> (done: bool)
        requires
            read == 0 || old(self).total + read <= usize::MAX,
        ensures
            done == (read == 0),
            done ==> *final(self) == *old(self),
            !done ==> final(self).bytes@ == old(self).bytes@ + buf@ && final(self).total == old(self).total
                + read,
    {
        if read == 0 {
            return true;
        }
        self.total = self.total + read;
        let mut k: usize = 0;
        let ghost start = self.bytes@;
        while k < 64
            invariant
                k <= 64,
                buf@.len() == 64,
                self.bytes@ == start + buf@.take(k as int),
                self.total == old(self).total + read,
            decreases 64 - k,
        {
            self.bytes.push(buf[k]);
            k = k + 1;
            assert(self.bytes@ =~= start + buf@.take(k as int));
        }
        assert(buf@.take(64) =~= buf@);
        false
    }

    /// The argument: the bytes received, cut to the number filled.
    pub fn finish(self) -> (r: Vec<u8>)
        ensures
            r@ == arg_result(self.bytes@, self.total as nat),
    {
        let mut bytes = self.bytes;
        let total = self.total;
        while bytes.len() > total
            invariant
                bytes@ == self.bytes@.take(bytes@.len() as int),
                bytes@.len() <= self.bytes@.len(),
                self.total == total,
                self.bytes@.len() <= total ==> bytes@.len() == self.bytes@.len(),
                self.bytes@.len() > total ==> bytes@.len() >= total,
            decreases bytes@.len(),
        {
            bytes.pop();
            assert(bytes@ =~= self.bytes@.take(bytes@.len() as int));
        }
        proof {
            if self.bytes@.len() <= total {
                assert(bytes@ =~= self.bytes@);
            }
        }
        bytes
    }
}

/// The bytes the kernel copies of argument `arg` from `offset` into a
/// buffer of 64 bytes.
pub open spec fn arg_chunk(arg: Seq<u8>, offset: int) -> Seq<u8> {
    arg.subrange(offset, if arg.len() - offset <= 64 { arg.len() as int } else { offset + 64 })
}

/// The buffer after a read that filled its front with `chunk`: the rest
/// still holds what the previous read left.
pub open spec fn refilled(buf: Seq<u8>, chunk: Seq<u8>) -> Seq<u8> {
    chunk + buf.skip(chunk.len() as int)
}

/// Reading argument `arg` chunk after chunk from byte `total` on, with the
/// bytes received so far and the buffer's contents: the received bytes and
/// total once a read returns nothing.
pub open spec fn read_arg_rest(arg: Seq<u8>, bytes: Seq<u8>, total: int, buf: Seq<u8>) -> (Seq<u8>, int)
    decreases arg.len() - total,
{
    if total < 0 || total >= arg.len() {
        (bytes, total)
    } else {
        let c = arg_chunk(arg, total);
        let b2 = refilled(buf, c);
        read_arg_rest(arg, bytes + b2, total + c.len(), b2)
    }
}

proof fn lemma_read_arg_rest(arg: Seq<u8>, bytes: Seq<u8>, total: int, buf: Seq<u8>)
    requires
        0 <= total <= arg.len(),
        buf.len() == 64,
        bytes.len() >= total,
        total < arg.len() ==> bytes.len() == total,
        bytes.take(total) == arg.take(total),
    ensures
        ({
            let (b, t) = read_arg_rest(arg, bytes, total, buf);
            arg_result(b, t as nat) == arg && t == arg.len()
        }),
    decreases arg.len() - total,
{
    if total >= arg.len() {
        assert(arg.take(total) =~= arg);
        if bytes.len() > total {
        } else {
            assert(bytes =~= bytes.take(total));
        }
    } else {
        let c = arg_chunk(arg, total);
        let b2 = refilled(buf, c);
        let n = c.len() as int;
        assert(b2.len() == 64);
        let nb = bytes + b2;
        assert(nb.take(total + n) =~= arg.take(total + n)) by {
            assert forall|i: int| 0 <= i < total + n implies #[trigger] nb.take(total + n)[i] == arg.take(total + n)[i] by {
                if i < total {
                    assert(nb[i] == bytes[i]);
                    assert(bytes.take(total)[i] == arg.take(total)[i]);
                } else {
                    assert(nb[i] == b2[i - total]);
                    assert(b2[i - total] == c[i - total]);
                }
            }
        }
        lemma_read_arg_rest(arg, nb, total + n, b2);
    }
}

/// Reading an argument back in 64-byte chunks, each the bytes the kernel
/// copies from the number of bytes read so far, until a read returns
/// nothing, and cutting the received buffers to the total read, gives the
/// argument back exactly.
pub proof fn lemma_args_read_back(arg: Seq<u8>)
    ensures
        ({
            let (b, t) = read_arg_rest(arg, Seq::empty(), 0, Seq::new(64, |i: int| 0u8));
            arg_result(b, t as nat) == arg
        }),
{
    assert(Seq::<u8>::empty().take(0) =~= arg.take(0));
    lemma_read_arg_rest(arg, Seq::empty(), 0, Seq::new(64, |i: int| 0u8));
}

} // verus!
