//! The fixed-size storage page: a 4096-byte buffer whose bytes [4, 6) hold a
//! big-endian write cursor (the "tip"), the offset of the first free byte.
//! Writes only append; reads are bounds-checked and out-of-range reads return
//! zero-valued or empty results instead of failing.

use vstd::prelude::*;

verus! {

/// Why an append failed.
#[derive(Clone, Copy, Debug, PartialEq, Eq, Structural)]
pub enum BlockError {
    /// The page has too little free capacity for the payload.
    OutOfSpace,
    /// The new tip would not fit the 16-bit tip field. Unreachable while the
    /// page invariant holds; kept as a defensive corruption guard.
    TipOverflow,
}

/// The cursor a page's bytes carry at offsets 4 and 5, big-endian.
pub open spec fn tip_of(s: Seq<u8>) -> int {
    s[4] * 256 + s[5]
}

/// The page bytes with payload b copied in at offset `at`.
pub open spec fn stored(s: Seq<u8>, at: int, b: Seq<u8>) -> Seq<u8> {
    Seq::new(s.len(), |i: int| if at <= i < at + b.len() { b[i - at] } else { s[i] })
}

/// The page bytes with the tip field set to t.
pub open spec fn with_tip(s: Seq<u8>, t: int) -> Seq<u8>
    recommends
        0 <= t < 0x10000,
{
    s.update(4, (t / 256) as u8).update(5, (t % 256) as u8)
}

/// What a successful append does: copy the payload at the tip, then advance
/// the tip past it.
pub open spec fn write_model(s: Seq<u8>, b: Seq<u8>) -> Seq<u8> {
    with_tip(stored(s, tip_of(s), b), tip_of(s) + b.len())
}

/// An append succeeds exactly when the new tip stays strictly below the page
/// size.
pub open spec fn can_write(s: Seq<u8>, b: Seq<u8>) -> bool {
    tip_of(s) + b.len() < 4096
}

/// A freshly created page: all zero except the tip field, which reads 256.
pub open spec fn empty_block() -> Seq<u8> {
    with_tip(Seq::new(4096, |i: int| 0u8), 256)
}

/// What loading persisted bytes yields: the first 4096 bytes verbatim, any
/// missing tail zero-filled.
pub open spec fn load_model(b: Seq<u8>) -> Seq<u8> {
    Seq::new(4096, |i: int| if i < b.len() { b[i] } else { 0u8 })
}

pub proof fn lemma_tip_of_with_tip(s: Seq<u8>, t: int)
    requires
        s.len() == 4096,
        0 <= t < 0x10000,
    ensures
        tip_of(with_tip(s, t)) == t,
{
}

/// The page after a run of appends, applied in order.
pub open spec fn apply_writes(s: Seq<u8>, ws: Seq<Seq<u8>>) -> Seq<u8>
    decreases ws.len(),
{
    if ws.len() == 0 {
        s
    } else {
        apply_writes(write_model(s, ws.first()), ws.drop_first())
    }
}

/// The combined length of a run of payloads.
pub open spec fn total_len(ws: Seq<Seq<u8>>) -> int
    decreases ws.len(),
{
    if ws.len() == 0 {
        0
    } else {
        ws.first().len() + total_len(ws.drop_first())
    }
}

/// Every append of the run fits when applied in order.
pub open spec fn all_writes_fit(s: Seq<u8>, ws: Seq<Seq<u8>>) -> bool
    decreases ws.len(),
{
    if ws.len() == 0 {
        true
    } else {
        can_write(s, ws.first()) && all_writes_fit(write_model(s, ws.first()), ws.drop_first())
    }
}

/// What one successful append does to the page bytes: the size is kept, the
/// tip advances by the payload's length, the payload sits at the old tip, and
/// every byte below the old tip outside the tip field is untouched.
pub proof fn lemma_write_model(s: Seq<u8>, b: Seq<u8>)
    requires
        s.len() == 4096,
        6 <= tip_of(s),
        can_write(s, b),
    ensures
        write_model(s, b).len() == 4096,
        tip_of(write_model(s, b)) == tip_of(s) + b.len(),
        forall|i: int| 6 <= i < tip_of(s) ==> write_model(s, b)[i] == s[i],
        forall|j: int| 0 <= j < b.len() ==> write_model(s, b)[tip_of(s) + j] == b[j],
{
    lemma_tip_of_with_tip(stored(s, tip_of(s), b), tip_of(s) + b.len());
}

/// Append monotonicity: after a run of successful appends the tip has
/// advanced by exactly the combined payload length, each payload's bytes sit
/// where that append put them, and the bytes below the starting tip (outside
/// the tip field) are unchanged.
pub proof fn lemma_append_monotonic(s: Seq<u8>, ws: Seq<Seq<u8>>)
    requires
        s.len() == 4096,
        6 <= tip_of(s),
        all_writes_fit(s, ws),
    ensures
        apply_writes(s, ws).len() == 4096,
        tip_of(apply_writes(s, ws)) == tip_of(s) + total_len(ws),
        forall|i: int| 6 <= i < tip_of(s) ==> apply_writes(s, ws)[i] == s[i],
        forall|k: int, j: int|
            0 <= k < ws.len() && 0 <= j < ws[k].len() ==> apply_writes(s, ws)[tip_of(s)
                + total_len(ws.take(k)) + j] == ws[k][j],
    decreases ws.len(),
{
    if ws.len() > 0 {
        let w0 = ws.first();
        let s1 = write_model(s, w0);
        let wsr = ws.drop_first();
        lemma_write_model(s, w0);
        lemma_append_monotonic(s1, wsr);
        assert forall|k: int, j: int| 0 <= k < ws.len() && 0 <= j < ws[k].len() implies apply_writes(
            s,
            ws,
        )[tip_of(s) + total_len(ws.take(k)) + j] == ws[k][j] by {
            if k == 0 {
                assert(ws.take(0) =~= Seq::<Seq<u8>>::empty());
                assert(total_len(ws.take(0)) == 0);
                assert(apply_writes(s1, wsr)[tip_of(s) + j] == s1[tip_of(s) + j]);
            } else {
                assert(ws.take(k).drop_first() =~= wsr.take(k - 1));
                assert(total_len(ws.take(k)) == w0.len() + total_len(wsr.take(k - 1)));
                assert(apply_writes(s1, wsr)[tip_of(s1) + total_len(wsr.take(k - 1)) + j] == wsr[k
                    - 1][j]);
                assert(wsr[k - 1] == ws[k]);
            }
        }
    }
}

/// Persistence idempotence: loading a persisted full-page image yields the
/// page's bytes exactly, tip field included.
pub proof fn lemma_persist_round_trip(s: Seq<u8>)
    requires
        s.len() == 4096,
    ensures
        load_model(s) == s,
{
    assert(load_model(s) =~= s);
}

/// Append boundary: a payload at least as long as the free space is always
/// refused, since the tip must stay strictly below the page size; the page is
/// then left unchanged (see `Block::try_write`).
pub proof fn lemma_append_boundary(s: Seq<u8>, b: Seq<u8>)
    requires
        s.len() == 4096,
        tip_of(s) <= 4096,
        b.len() >= 4096 - tip_of(s),
    ensures
        !can_write(s, b),
{
}

/// The page: a fixed 4096-byte buffer owning its bytes exclusively.
pub struct Block {
    data: Vec<u8>,
}

impl View for Block {
    type V = Seq<u8>;

    closed spec fn view(&self) -> Seq<u8> {
        self.data@
    }
}

impl Block {
    /// Structural invariant: the buffer is exactly one page.
    pub open spec fn wf(&self) -> bool {
        self@.len() == 4096
    }

    /// A new page: zero-filled, tip preset to 256 to reserve the header
    /// region.
    pub fn create() -> (r: Block)
        ensures
            r.wf(),
            r@ == empty_block(),
            tip_of(r@) == 256,
    {
        let data: Vec<u8> = vec![0u8; 4096];
        let mut block = Block { data };
        block.set_tip(256);
        proof {
            assert(block@ =~= empty_block());
            lemma_tip_of_with_tip(Seq::new(4096, |i: int| 0u8), 256);
        }
        block
    }

    /// Rebuilds a page from persisted bytes, taken verbatim; a short input
    /// leaves the tail zero-filled. The tip is whatever was persisted, not
    /// recomputed.
    pub fn from_bytes(bytes: &[u8]) -> (r: Block)
        ensures
            r.wf(),
            r@ == load_model(bytes@),
    {
        let mut data: Vec<u8> = vec![0u8; 4096];
        let mut i: usize = 0;
        let n: usize = if bytes.len() < 4096 {
            bytes.len()
        } else {
            4096
        };
        while i < n
            invariant
                i <= n,
                n <= bytes@.len(),
                n <= 4096,
                n == if bytes@.len() < 4096 { bytes@.len() as int } else { 4096int },
                data@.len() == 4096,
                forall|j: int| 0 <= j < i ==> data@[j] == bytes@[j],
                forall|j: int| i <= j < 4096 ==> data@[j] == 0u8,
            decreases n - i,
        {
            data[i] = bytes[i];
            i = i + 1;
        }
        let block = Block { data };
        proof {
            assert(block@ =~= load_model(bytes@));
        }
        block
    }

    /// The page's full byte image, for persisting verbatim.
    pub fn to_bytes(&self) -> (r: Vec<u8>)
        requires
            self.wf(),
        ensures
            r@ == self@,
    {
        vstd::slice::slice_to_vec(self.data.as_slice())
    }

    /// Appends the payload at the tip and advances the tip past it; on any
    /// failure the page is left untouched.
    pub fn try_write(&mut self, data: &[u8]) -> (r: Result<(), BlockError>)
        requires
            old(self).wf(),
        ensures
            final(self).wf(),
            r is Ok <==> can_write(old(self)@, data@),
            r is Ok ==> final(self)@ == write_model(old(self)@, data@),
            r is Ok ==> tip_of(final(self)@) == tip_of(old(self)@) + data@.len(),
            r is Err ==> final(self)@ == old(self)@,
            r matches Err(e) ==> e == BlockError::OutOfSpace,
    {
        let current_tip: usize = self.get_tip() as usize;
        let len: usize = data.len();
        if len >= 4096 {
            return Err(BlockError::OutOfSpace);
        }
        let new_tip: usize = current_tip + len;
        if new_tip >= 4096 {
            return Err(BlockError::OutOfSpace);
        }
        if new_tip > 65535 {
            // Unreachable: new_tip < 4096. Kept as a corruption guard.
            return Err(BlockError::TipOverflow);
        }
        let mut k: usize = 0;
        while k < len
            invariant
                k <= len,
                len == data@.len(),
                current_tip + len < 4096,
                current_tip == tip_of(old(self)@),
                self@.len() == 4096,
                forall|i: int|
                    0 <= i < 4096 && !(current_tip <= i < current_tip + k) ==> self@[i] == old(
                        self,
                    )@[i],
                forall|j: int| 0 <= j < k ==> self@[current_tip + j] == data@[j],
            decreases len - k,
        {
            self.data[current_tip + k] = data[k];
            k = k + 1;
        }
        proof {
            assert(self@ =~= stored(old(self)@, current_tip as int, data@));
        }
        self.set_tip(new_tip as u16);
        proof {
            lemma_tip_of_with_tip(
                stored(old(self)@, tip_of(old(self)@), data@),
                tip_of(old(self)@) + data@.len(),
            );
        }
        Ok(())
    }

    /// The persisted tip: the offset of the first free byte.
    pub fn get_tip(&self) -> (r: u16)
        requires
            self.wf(),
        ensures
            r as int == tip_of(self@),
    {
        let hi: u8 = self.data[4];
        let lo: u8 = self.data[5];
        (hi as u16) * 256 + (lo as u16)
    }

    /// Stores a new tip into the page's tip field, big-endian.
    pub fn set_tip(&mut self, new_tip: u16)
        requires
            old(self).wf(),
        ensures
            final(self).wf(),
            final(self)@ == with_tip(old(self)@, new_tip as int),
            tip_of(final(self)@) == new_tip,
    {
        let hi: u8 = (new_tip / 256) as u8;
        let lo: u8 = (new_tip % 256) as u8;
        self.data[4] = hi;
        self.data[5] = lo;
        proof {
            lemma_tip_of_with_tip(old(self)@, new_tip as int);
        }
    }

    /// The byte at `index`; an out-of-range read yields 0, never a fault.
    pub fn raw_read_at(&self, index: usize) -> (r: u8)
        requires
            self.wf(),
        ensures
            0 <= index < 4096 ==> r == self@[index as int],
            index >= 4096 ==> r == 0,
    {
        if index < 4096 {
            self.data[index]
        } else {
            0
        }
    }

    /// The bytes at [start, start + length); an out-of-range span yields the
    /// empty slice, never a fault.
    pub fn raw_read_span<'a>(&'a self, start: usize, length: usize) -> (r: &'a [u8])
        requires
            self.wf(),
        ensures
            start + length < 4096 ==> r@ == self@.subrange(start as int, start + length),
            start + length >= 4096 ==> r@ == Seq::<u8>::empty(),
    {
        let sl: &[u8] = self.data.as_slice();
        if start < 4096 && length < 4096 && start + length < 4096 {
            vstd::slice::slice_subrange(sl, start, start + length)
        } else {
            let empty = vstd::slice::slice_subrange(sl, 0, 0);
            proof {
                assert(empty@ =~= Seq::<u8>::empty());
            }
            empty
        }
    }

    /// How many bytes remain past the tip.
    pub fn get_free_space(&self) -> (r: u16)
        requires
            self.wf(),
            tip_of(self@) <= 4096,
        ensures
            r as int == 4096 - tip_of(self@),
    {
        4096 - self.get_tip()
    }
}

} // verus!
