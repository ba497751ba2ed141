//! Uploads: bytes are staged, written in chunks, and activated only if every
//! write succeeded.
use vstd::prelude::*;

verus! {

/// How many bytes are written at once.
pub const LOADER_CHUNK_LEN: usize = 512;

/// What is uploaded.
#[derive(Clone, Copy, PartialEq, Eq, Debug, Structural)]
pub enum UploadMode {
    /// A pkg, into its partition.
    Pkg,
    /// A firmware, into the slot that is not running.
    Ota,
}

/// How an upload ended.
#[derive(Clone, Copy, PartialEq, Eq, Debug, Structural)]
pub enum LoaderResult {
    Accepted,
    NotEnoughSpace,
    Aborted,
}

/// The bytes to write next: the first `len` of the staging buffer, at `offset`
/// bytes behind the start.
#[derive(Clone, Copy, PartialEq, Eq, Debug, Structural)]
pub struct Chunk {
    pub mode: UploadMode,
    pub offset: usize,
    pub len: usize,
}

/// What to do at the end of an upload.
#[derive(Clone, Copy, PartialEq, Eq, Debug, Structural)]
pub enum EndStep {
    /// It is over.
    Done(LoaderResult),
    /// Release the slot, whose image is not complete. That ends the upload.
    AbortOta(LoaderResult),
    /// Verify the image; report with `verified`.
    VerifyOta,
    /// Make the image, which was verified, the one to start; report with
    /// `boot_set`.
    SetBoot,
}

/// An upload: what it is, `None` where its start was refused, and the bytes
/// that wait to be written.
pub struct Loader {
    pub mode: Option<UploadMode>,
    pub buf: [u8; LOADER_CHUNK_LEN],
    pub len: usize,
    /// A write has failed. The rest is taken, since an upload cannot be
    /// stopped, but goes nowhere.
    pub failed: bool,
    /// How many bytes have been written.
    pub written: usize,
    /// All bytes that were taken.
    pub taken: Ghost<Seq<u8>>,
    /// All bytes that were written.
    pub stored: Ghost<Seq<u8>>,
}

/// How much of a partition a pkg of `len` bytes takes: whole erase blocks.
pub open spec fn erase_len_of(len: int, block: int) -> int {
    (len + block - 1) / block * block
}

/// How much to erase for a pkg of `len` bytes, where it fits in a partition of
/// `size` bytes. A flash block can only be erased as a whole, so all blocks
/// that the pkg takes are erased before the first write. `None` where there is
/// no partition or it is too small.
pub fn pkg_erase_len(len: usize, size: Option<usize>, block: usize) -> (r: Option<usize>)
    requires
        block >= 1,
        size matches Some(n) && len <= n ==> len + block <= usize::MAX,
    ensures
        r is Some <==> (size matches Some(n) && len <= n),
        r matches Some(e) ==> e == erase_len_of(len as int, block as int),
{
    match size {
        Some(n) => {
            if len > n {
                return None;
            }
            proof {
                lemma_erase_len(len as int, block as int);
            }
            Some((len + block - 1) / block * block)
        },
        None => None,
    }
}

/// Whether a firmware of `len` bytes fits in a slot of `size` bytes.
pub fn ota_fits(len: usize, size: Option<usize>) -> (r: bool)
    ensures
        r == (size matches Some(n) && len <= n),
{
    match size {
        Some(n) => len <= n,
        None => false,
    }
}

impl Loader {
    /// The bytes that wait to be written.
    pub open spec fn staged(self) -> Seq<u8> {
        self.buf@.take(self.len as int)
    }

    /// Nothing is lost: while an upload goes on and no write has failed, what
    /// was written and what waits make up what was taken.
    pub open spec fn wf(self) -> bool {
        &&& self.len <= LOADER_CHUNK_LEN
        &&& self.written == self.stored@.len()
        &&& self.mode is Some && !self.failed ==> self.stored@ + self.staged() == self.taken@
    }

    pub fn new() -> (r: Self)
        ensures
            r.wf(),
            r.mode is None,
            r.len == 0,
            !r.failed,
            r.written == 0,
            r.taken@.len() == 0,
    {
        Loader {
            mode: None,
            buf: [0u8;LOADER_CHUNK_LEN],
            len: 0,
            failed: false,
            written: 0,
            taken: Ghost(Seq::empty()),
            stored: Ghost(Seq::empty()),
        }
    }

    /// Starts an upload, which is refused where it was given no space.
    pub fn start(&mut self, mode: UploadMode, space: usize)
        ensures
            final(self).wf(),
            final(self).mode == if space > 0 {
                Some(mode)
            } else {
                None
            },
            final(self).len == 0,
            !final(self).failed,
            final(self).written == 0,
            final(self).taken@ == Seq::<u8>::empty(),
            final(self).stored@ == Seq::<u8>::empty(),
    {
        self.len = 0;
        self.failed = false;
        self.written = 0;
        self.mode = if space > 0 {
            Some(mode)
        } else {
            None
        };
        self.taken = Ghost(Seq::empty());
        self.stored = Ghost(Seq::empty());
        proof {
            assert(self.stored@ + self.staged() =~= self.taken@);
        }
    }

    /// Takes bytes of `data` from `from` on, until all are taken or a chunk is
    /// full. Returns where the next byte is.
    pub fn take(&mut self, data: &[u8], from: usize) -> (r: usize)
        requires
            old(self).wf(),
            from <= data@.len(),
            old(self).len < LOADER_CHUNK_LEN,
        ensures
            final(self).wf(),
            from <= r <= data@.len(),
            final(self).mode == old(self).mode,
            final(self).failed == old(self).failed,
            final(self).written == old(self).written,
            final(self).stored@ == old(self).stored@,
            final(self).taken@ == old(self).taken@ + data@.subrange(from as int, r as int),
            final(self).staged() == old(self).staged() + data@.subrange(from as int, r as int),
            final(self).len == LOADER_CHUNK_LEN || r == data@.len(),
            final(self).len <= 512,
            final(self).len == 512 || r == data@.len(),
    {
        let mut i: usize = from;
        let ghost before = self.taken@;
        let ghost waiting = self.staged();
        proof {
            assert(before + data@.subrange(from as int, from as int) =~= before);
            assert(waiting + data@.subrange(from as int, from as int) =~= waiting);
        }
        while i < data.len() && self.len < LOADER_CHUNK_LEN
            invariant
                self.wf(),
                from <= i <= data@.len(),
                self.mode == old(self).mode,
                self.failed == old(self).failed,
                self.written == old(self).written,
                self.stored@ == old(self).stored@,
                before == old(self).taken@,
                waiting == old(self).staged(),
                self.taken@ == before + data@.subrange(from as int, i as int),
                self.staged() == waiting + data@.subrange(from as int, i as int),
            decreases data@.len() - i,
        {
            let ghost staged = self.staged();
            let ghost buf = self.buf@;
            let byte: u8 = data[i];
            let n: usize = self.len;
            self.buf[n] = byte;
            self.len = n + 1;
            self.taken = Ghost(self.taken@.push(byte));
            proof {
                assert(self.staged() =~= staged.push(byte));
                assert(data@.subrange(from as int, i + 1) =~= data@.subrange(
                    from as int,
                    i as int,
                ).push(byte));
                assert(self.taken@ =~= before + data@.subrange(from as int, i + 1));
                assert(self.staged() =~= waiting + data@.subrange(from as int, i + 1));
                assert(self.stored@ + staged.push(byte) =~= (self.stored@ + staged).push(byte));
            }
            i = i + 1;
        }
        i
    }

    /// Empties the staging buffer. Returns what to write, and where: nothing
    /// where nothing waits, a write has failed, or there is no upload. The
    /// outcome of a write is reported with `chunk_written`.
    pub fn flush(&mut self) -> (r: Option<Chunk>)
        requires
            old(self).wf(),
        ensures
            final(self).len == 0,
            final(self).mode == old(self).mode,
            final(self).buf == old(self).buf,
            final(self).failed == old(self).failed,
            final(self).written == old(self).written,
            final(self).taken@ == old(self).taken@,
            final(self).stored@ == old(self).stored@,
            match old(self).mode {
                Some(mode) if old(self).len > 0 && !old(self).failed => r == Some(
                    Chunk { mode, offset: old(self).written, len: old(self).len },
                ),
                _ => r is None && final(self).wf(),
            },
    {
        let len: usize = self.len;
        self.len = 0;
        proof {
            if len == 0 {
                assert(old(self).staged() =~= self.staged());
            }
        }
        if len == 0 || self.failed {
            return None;
        }
        match self.mode {
            Some(mode) => Some(Chunk { mode, offset: self.written, len }),
            None => None,
        }
    }

    /// Takes the outcome of writing a chunk.
    pub fn chunk_written(&mut self, chunk: Chunk, ok: bool)
        requires
            old(self).len == 0,
            old(self).written == old(self).stored@.len(),
            chunk.len <= LOADER_CHUNK_LEN,
            old(self).mode is Some && !old(self).failed ==> old(self).stored@ + old(
                self,
            ).buf@.take(chunk.len as int) == old(self).taken@,
            old(self).written + chunk.len <= usize::MAX,
        ensures
            final(self).wf(),
            final(self).len == 0,
            final(self).mode == old(self).mode,
            final(self).failed == (old(self).failed || !ok),
            final(self).taken@ == old(self).taken@,
            final(self).written == if ok {
                old(self).written + chunk.len
            } else {
                old(self).written as int
            },
            ok ==> final(self).stored@ == old(self).stored@ + old(self).buf@.take(
                chunk.len as int,
            ),
            !ok ==> final(self).stored@ == old(self).stored@,
    {
        if ok {
            self.written = self.written + chunk.len;
            self.stored = Ghost(self.stored@ + self.buf@.take(chunk.len as int));
        } else {
            self.failed = true;
        }
        proof {
            assert(self.stored@ + self.staged() =~= self.stored@);
        }
    }

    /// Ends an upload, once its last chunk has been written.
    pub fn end(&mut self) -> (r: EndStep)
        requires
            old(self).wf(),
            old(self).len == 0,
        ensures
            final(self).wf(),
            final(self).mode is None,
            final(self).failed == old(self).failed,
            final(self).stored@ == old(self).stored@,
            final(self).taken@ == old(self).taken@,
            r == match old(self).mode {
                Some(UploadMode::Pkg) => EndStep::Done(
                    if old(self).failed {
                        LoaderResult::NotEnoughSpace
                    } else {
                        LoaderResult::Accepted
                    },
                ),
                Some(UploadMode::Ota) => ota_end_of(old(self).failed),
                None => EndStep::Done(LoaderResult::NotEnoughSpace),
            },
            r == EndStep::Done(LoaderResult::Accepted) || r == EndStep::VerifyOta ==> final(self).stored@
                == final(self).taken@,
    {
        let mode: Option<UploadMode> = self.mode;
        self.mode = None;
        proof {
            assert(self.stored@ + self.staged() =~= self.stored@);
        }
        match mode {
            Some(UploadMode::Pkg) => if self.failed {
                EndStep::Done(LoaderResult::NotEnoughSpace)
            } else {
                EndStep::Done(LoaderResult::Accepted)
            },
            Some(UploadMode::Ota) => if self.failed {
                EndStep::AbortOta(LoaderResult::Aborted)
            } else {
                EndStep::VerifyOta
            },
            None => EndStep::Done(LoaderResult::NotEnoughSpace),
        }
    }
}

/// What follows the verification of an image.
pub open spec fn after_verify(ok: bool) -> EndStep {
    if ok {
        EndStep::SetBoot
    } else {
        EndStep::Done(LoaderResult::Aborted)
    }
}

/// What follows an attempt to make an image the one to start.
pub open spec fn after_boot(ok: bool) -> EndStep {
    EndStep::Done(
        if ok {
            LoaderResult::Accepted
        } else {
            LoaderResult::Aborted
        },
    )
}

/// Takes whether an image could be verified. Only one that was is started.
pub fn verified(ok: bool) -> (r: EndStep)
    ensures
        r == after_verify(ok),
{
    if ok {
        EndStep::SetBoot
    } else {
        EndStep::Done(LoaderResult::Aborted)
    }
}

/// Takes whether a verified image could be made the one to start.
pub fn boot_set(ok: bool) -> (r: EndStep)
    ensures
        r == after_boot(ok),
{
    if ok {
        EndStep::Done(LoaderResult::Accepted)
    } else {
        EndStep::Done(LoaderResult::Aborted)
    }
}

// ---------------------------------------------------------------------------
// Laws
// ---------------------------------------------------------------------------

/// The steps that end an upload of a firmware, of which the first is
/// `first`, the image is verified where `image_ok`, and it can be made the one
/// to start where `boot_ok`.
pub open spec fn end_steps(first: EndStep, image_ok: bool, boot_ok: bool) -> Seq<EndStep> {
    match first {
        EndStep::VerifyOta => if image_ok {
            seq![first, after_verify(true), after_boot(boot_ok)]
        } else {
            seq![first, after_verify(false)]
        },
        _ => seq![first],
    }
}

/// The first step that ends an upload of a firmware.
pub open spec fn ota_end_of(failed: bool) -> EndStep {
    if failed {
        EndStep::AbortOta(LoaderResult::Aborted)
    } else {
        EndStep::VerifyOta
    }
}

/// An upload of a firmware is accepted exactly where no write of it failed,
/// its image was verified and could be made the one to start; else it is
/// aborted. No image is made the one to start before it was verified.
pub proof fn lemma_boot_follows_verification(failed: bool, image_ok: bool, boot_ok: bool)
    ensures
        ({
            let steps = end_steps(ota_end_of(failed), image_ok, boot_ok);
            &&& steps.last() == if failed {
                EndStep::AbortOta(LoaderResult::Aborted)
            } else if image_ok && boot_ok {
                EndStep::Done(LoaderResult::Accepted)
            } else {
                EndStep::Done(LoaderResult::Aborted)
            }
            &&& steps.contains(EndStep::SetBoot) <==> !failed && image_ok
            &&& forall|i: int|
                0 <= i < steps.len() && #[trigger] steps[i] == EndStep::SetBoot ==> i == 1
                    && steps[0] == EndStep::VerifyOta && image_ok
        }),
{
    let steps = end_steps(ota_end_of(failed), image_ok, boot_ok);
    if !failed && image_ok {
        assert(steps[1] == EndStep::SetBoot);
    }
}

/// What is erased is whole blocks, enough for the pkg, and no block more than
/// it takes.
pub proof fn lemma_erase_len(len: int, block: int)
    requires
        len >= 0,
        block >= 1,
    ensures
        erase_len_of(len, block) % block == 0,
        len <= erase_len_of(len, block) < len + block,
{
    let n = len + block - 1;
    let q = n / block;
    vstd::arithmetic::div_mod::lemma_fundamental_div_mod(n, block);
    vstd::arithmetic::div_mod::lemma_mod_bound(n, block);
    vstd::arithmetic::mul::lemma_mul_is_commutative(block, q);
    vstd::arithmetic::div_mod::lemma_mod_multiples_basic(q, block);
}

/// A pkg that fits in a partition of whole blocks has its blocks there.
pub proof fn lemma_erase_stays_inside(len: int, size: int, block: int)
    requires
        0 <= len <= size,
        block >= 1,
        size % block == 0,
    ensures
        erase_len_of(len, block) <= size,
{
    let n = len + block - 1;
    let q = n / block;
    let s = size / block;
    vstd::arithmetic::div_mod::lemma_fundamental_div_mod(n, block);
    vstd::arithmetic::div_mod::lemma_mod_bound(n, block);
    vstd::arithmetic::div_mod::lemma_fundamental_div_mod(size, block);
    assert(q <= s) by (nonlinear_arith)
        requires
            block >= 1,
            n == block * q + n % block,
            0 <= n % block,
            n <= size + block - 1,
            size == block * s,
    ;
    assert(q * block <= s * block) by (nonlinear_arith)
        requires
            q <= s,
            block >= 1,
    ;
    vstd::arithmetic::mul::lemma_mul_is_commutative(block, s);
}

} // verus!
