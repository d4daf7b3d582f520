//! The container: one growable byte arena plus an index of element records.
//!
//! An element is a byte payload together with a power-of-two alignment
//! requirement and an opaque behavior descriptor. Payloads sit back to back
//! in the arena, each at an address that satisfies its alignment; the index
//! remembers, per element and in insertion order, the payload's offset, size,
//! alignment and descriptor. Elements are appended by `push` and removed
//! last-in/first-out by `remove_last`.

use vstd::prelude::*;
use vstd::arithmetic::div_mod::lemma_fundamental_div_mod;
use vstd::arithmetic::div_mod::lemma_mod_division_less_than_divisor;
use vstd::arithmetic::div_mod::lemma_mod_multiples_basic;
use vstd::arithmetic::div_mod::lemma_mod_multiples_vanish;
use vstd::arithmetic::power2::is_pow2;
use vstd::pervasive::VecAdditionalExecFns;
use crate::align::align_up;
use crate::align::lemma_congruent_mod_divisor;
use crate::align::lemma_pow2_divides;
use crate::align::lemma_pow2_exponent;

verus! {

/// Relies on `Vec::as_ptr`: the address of the vector's heap buffer. A Rust
/// allocation never wraps around the address space, so the address plus the
/// buffer's length stays within `usize`.
#[verifier::external_body]
fn buf_addr(v: &Vec<u8>) -> (r: usize)
    ensures
        r + v@.len() <= usize::MAX,
{
    v.as_ptr() as usize
}

/// A vector of `n` zero bytes.
#[verifier::loop_isolation(false)]
fn zero_vec(n: usize) -> (v: Vec<u8>)
    ensures
        v@.len() == n,
{
    let mut v: Vec<u8> = Vec::new();
    while v.len() < n
        invariant
            v@.len() <= n,
        decreases n - v@.len(),
    {
        v.push(0u8);
    }
    v
}

/// Distance from address `addr` up to the next multiple of `align`.
fn align_pad(addr: usize, align: usize) -> (p: usize)
    requires
        align >= 1,
    ensures
        p < align,
        (addr + p) % (align as int) == 0,
        addr as int % (align as int) == 0 ==> p == 0,
{
    let rem: usize = addr % align;
    if rem == 0 {
        proof {
            assert((addr + 0) % (align as int) == 0);
        }
        0
    } else {
        proof {
            lemma_fundamental_div_mod(addr as int, align as int);
            lemma_mod_division_less_than_divisor(addr as int, align as int);
            let q = addr as int / align as int;
            assert(align as int * (q + 1) == align as int * q + align) by (nonlinear_arith);
            assert(addr + (align - rem) == align as int * (q + 1));
            lemma_mod_multiples_basic(q + 1, align as int);
            assert((q + 1) * align as int == align as int * (q + 1)) by (nonlinear_arith);
            assert((addr + (align - rem)) % (align as int) == 0);
        }
        align - rem
    }
}

/// Copies `src[s0 .. s0 + n]` onto `dst[d0 .. d0 + n]`, leaving every other
/// byte of `dst` unchanged.
#[verifier::loop_isolation(false)]
fn copy_range(dst: &mut Vec<u8>, d0: usize, src: &Vec<u8>, s0: usize, n: usize)
    requires
        s0 + n <= src@.len(),
        d0 + n <= old(dst)@.len(),
    ensures
        final(dst)@.len() == old(dst)@.len(),
        forall|i: int| d0 <= i < d0 + n ==> #[trigger] final(dst)@[i] == src@[i - d0 + s0],
        forall|i: int|
            0 <= i < old(dst)@.len() && !(d0 <= i < d0 + n) ==> #[trigger] final(dst)@[i]
                == old(dst)@[i],
{
    let dl: usize = dst.len();
    let sl: usize = src.len();
    let mut k: usize = 0;
    while k < n
        invariant
            k <= n,
            d0 + n <= dl,
            s0 + n <= sl,
            dst@.len() == old(dst)@.len(),
            forall|i: int| d0 <= i < d0 + k ==> #[trigger] dst@[i] == src@[i - d0 + s0],
            forall|i: int|
                0 <= i < old(dst)@.len() && !(d0 <= i < d0 + k) ==> #[trigger] dst@[i]
                    == old(dst)@[i],
        decreases n - k,
    {
        let b = src[s0 + k];
        dst.set(d0 + k, b);
        k += 1;
    }
}

/// The logical content of one element: its payload bytes, its alignment
/// requirement, and its behavior descriptor.
pub type ElemView = (Seq<u8>, usize, usize);

/// One entry of the descriptor index: where an element's payload lives in the
/// arena, how large it is, what alignment it demands, and its descriptor.
#[derive(Clone, Copy)]
struct ElemRec {
    off: usize,
    size: usize,
    align: usize,
    descr: usize,
}

/// A densely packed stack of byte payloads with mixed alignment requirements.
///
/// The arena is the byte range of `dyn_data` starting at index `pad`; the
/// byte at arena offset `o` lives at machine address `base + o`, where
/// `base` is the first 16-byte boundary inside the buffer. `dyn_size` bytes
/// of the arena are live, `dyn_cap` are usable, and `max_align` is the
/// strictest alignment requirement seen so far (at least the default 16).
pub struct DynStack {
    offs_table: Vec<ElemRec>,
    dyn_data: Vec<u8>,
    dyn_size: usize,
    dyn_cap: usize,
    base: usize,
    pad: usize,
    max_align: usize,
}

impl DynStack {
    /// The payload bytes of element `i`, read out of the arena.
    pub closed spec fn elem_bytes(&self, i: int) -> Seq<u8> {
        let r = self.offs_table@[i];
        self.dyn_data@.subrange(self.pad + r.off, self.pad + r.off + r.size)
    }

    /// The machine address at which element `i`'s payload starts.
    pub closed spec fn elem_addr(&self, i: int) -> int {
        self.base + self.offs_table@[i].off
    }

    /// The arena offset of element `i`.
    pub closed spec fn elem_off(&self, i: int) -> int {
        self.offs_table@[i].off as int
    }

    /// Number of live payload bytes (from the start of the arena).
    pub closed spec fn live_size(&self) -> nat {
        self.dyn_size as nat
    }

    /// Usable bytes of the arena; zero until the first push.
    pub closed spec fn capacity_spec(&self) -> nat {
        self.dyn_cap as nat
    }

    /// The strictest alignment requirement recorded so far (at least 16).
    pub closed spec fn max_align_spec(&self) -> nat {
        self.max_align as nat
    }

    /// Well-formedness of one index entry: its alignment is a power of two
    /// no stricter than `max_align`, its payload lies within the live bytes,
    /// and its address satisfies its alignment.
    spec fn rec_wf(&self, i: int) -> bool {
        let r = self.offs_table@[i];
        &&& is_pow2(r.align as int)
        &&& r.align <= self.max_align
        &&& r.off + r.size <= self.dyn_size
        &&& (self.base + r.off) % (r.align as int) == 0
    }

    /// With the default alignment only, the first element starts at offset
    /// zero, so removing every element brings the live size back to zero.
    spec fn first_off_zero(&self) -> bool {
        if self.offs_table@.len() > 0 {
            self.offs_table@[0].off == 0
        } else {
            self.dyn_size == 0
        }
    }

    /// The container invariant.
    pub closed spec fn wf(&self) -> bool {
        &&& is_pow2(self.max_align as int)
        &&& self.max_align >= 16
        &&& self.dyn_size <= self.dyn_cap
        &&& if self.dyn_cap == 0 {
            &&& self.dyn_data@.len() == 0
            &&& self.dyn_size == 0
            &&& self.offs_table@.len() == 0
            &&& self.base == 0
            &&& self.pad == 0
            &&& self.max_align == 16
        } else {
            &&& self.dyn_cap >= 16
            &&& self.dyn_cap <= usize::MAX / 2
            &&& self.dyn_data@.len() == self.dyn_cap + 16
            &&& self.pad < 16
            &&& self.base % 16 == 0
            &&& self.base + self.dyn_cap <= usize::MAX
        }
        &&& forall|i: int| 0 <= i < self.offs_table@.len() ==> #[trigger] self.rec_wf(i)
        &&& forall|i: int, j: int|
            #![trigger self.offs_table@[i], self.offs_table@[j]]
            0 <= i < j < self.offs_table@.len() ==> self.offs_table@[i].off
                + self.offs_table@[i].size <= self.offs_table@[j].off
        &&& (self.max_align == 16 ==> self.first_off_zero())
    }

    /// Every element's address satisfies that element's alignment.
    pub proof fn lemma_all_aligned(&self)
        requires
            self.wf(),
        ensures
            forall|i: int|
                0 <= i < self@.len() ==> #[trigger] self.elem_addr(i) % (self@[i].1 as int) == 0,
    {
        assert forall|i: int| 0 <= i < self@.len() implies #[trigger] self.elem_addr(i) % (
        self@[i].1 as int) == 0 by {
            assert(self.rec_wf(i));
        }
    }

    /// Creates a new, empty stack. No arena is allocated: the capacity is
    /// zero until the first push.
    pub fn new() -> (s: DynStack)
        ensures
            s.wf(),
            s@ =~= Seq::<ElemView>::empty(),
            s.capacity_spec() == 0,
            s.live_size() == 0,
            s.max_align_spec() == 16,
    {
        proof {
            reveal_with_fuel(vstd::arithmetic::power2::is_pow2, 6);
            assert(is_pow2(16));
        }
        DynStack {
            offs_table: Vec::new(),
            dyn_data: Vec::new(),
            dyn_size: 0,
            dyn_cap: 0,
            base: 0,
            pad: 0,
            max_align: 16,
        }
    }

    /// Returns the number of elements stored on the stack.
    pub fn len(&self) -> (n: usize)
        ensures
            n == self@.len(),
    {
        self.offs_table.len()
    }

    /// Returns the number of live payload bytes in the arena.
    pub fn live_bytes(&self) -> (n: usize)
        ensures
            n == self.live_size(),
    {
        self.dyn_size
    }

    /// Returns the arena's usable capacity in bytes; zero before the first
    /// push, since construction is allocation-free.
    pub fn capacity(&self) -> (n: usize)
        ensures
            n == self.capacity_spec(),
    {
        self.dyn_cap
    }

    /// Returns the strictest alignment requirement recorded so far.
    pub fn max_alignment(&self) -> (n: usize)
        ensures
            n == self.max_align_spec(),
    {
        self.max_align
    }

    /// First-use allocation: the capacity is the first payload's size
    /// rounded up to a power of two, at least 16 bytes. Construction stays
    /// allocation-free; this runs on the first push.
    #[verifier::loop_isolation(false)]
    fn allocate(&mut self, item_size: usize)
        requires
            old(self).wf(),
            old(self).capacity_spec() == 0,
            item_size <= usize::MAX / 4,
        ensures
            final(self).wf(),
            final(self)@ == old(self)@,
            final(self)@.len() == 0,
            final(self).live_size() == 0,
            final(self).max_align_spec() == 16,
            16 <= final(self).capacity_spec(),
            item_size <= final(self).capacity_spec(),
            final(self).capacity_spec() <= usize::MAX / 2,
    {
        let mut cap: usize = 16;
        while cap < item_size
            invariant
                16 <= cap,
                cap <= usize::MAX / 2,
            decreases item_size + item_size - cap,
        {
            cap = cap * 2;
        }
        let data = zero_vec(cap + 16);
        let raw = buf_addr(&data);
        proof {
            reveal_with_fuel(vstd::arithmetic::power2::is_pow2, 6);
            assert(is_pow2(16));
        }
        let b = align_up(raw, 16);
        let p = b - raw;
        self.dyn_data = data;
        self.dyn_cap = cap;
        self.base = b;
        self.pad = p;
        proof {
            assert(self@ =~= old(self)@);
        }
    }

    /// Grows the arena so that `extra` more bytes fit beyond the live region
    /// whatever padding a placement needs: the capacity doubles, repeatedly
    /// until the target fits. The buffer may move; when the new buffer's
    /// placement differs modulo `max_align`, the live bytes are shifted and
    /// every offset adjusted by the same amount — forward, wrapped modulo
    /// `max_align`, when a backward move would run past the buffer start —
    /// so that every payload's address modulo its own alignment is unchanged.
    #[verifier::loop_isolation(false)]
    #[verifier::rlimit(60)]
    fn grow(&mut self, extra: usize)
        requires
            old(self).wf(),
            old(self).capacity_spec() >= 16,
            old(self).live_size() + extra + old(self).max_align_spec() <= usize::MAX / 4,
        ensures
            final(self).wf(),
            final(self)@ == old(self)@,
            final(self).live_size() + extra <= final(self).capacity_spec(),
            final(self).live_size() <= old(self).live_size() + old(self).max_align_spec(),
            final(self).max_align_spec() == old(self).max_align_spec(),
            final(self).capacity_spec() >= old(self).capacity_spec(),
    {
        let m: usize = self.max_align;
        // The new capacity: keep doubling until the live bytes, the worst
        // shift and the requested room all fit.
        let target: usize = self.dyn_size + m + extra;
        let mut new_cap: usize = self.dyn_cap;
        while new_cap < target
            invariant
                16 <= new_cap,
                new_cap <= usize::MAX / 2,
                new_cap >= self.dyn_cap,
            decreases target + target - new_cap,
        {
            new_cap = new_cap * 2;
        }
        // The new buffer, and where its arena starts.
        let mut data = zero_vec(new_cap + 16);
        let raw = buf_addr(&data);
        proof {
            reveal_with_fuel(vstd::arithmetic::power2::is_pow2, 6);
            assert(is_pow2(16));
        }
        let b = align_up(raw, 16);
        let p = b - raw;
        // The shift that keeps every stored payload aligned. New offsets
        // differ from old ones by `amt`, forward when `up` else backward.
        let oldph: usize = self.base % m;
        let newph: usize = b % m;
        let n0 = self.offs_table.len();
        let first_off: usize = if n0 > 0 {
            self.offs_table[0].off
        } else {
            0
        };
        let updown: (bool, usize) = if n0 == 0 || newph == oldph {
            (true, 0)
        } else if newph < oldph {
            (true, oldph - newph)
        } else if first_off >= newph - oldph {
            (false, newph - oldph)
        } else {
            (true, m - (newph - oldph))
        };
        let up = updown.0;
        let amt = updown.1;
        proof {
            assert(amt < m);
            assert(n0 > 0 && up ==> newph + amt == oldph || newph + amt == oldph + m);
            assert(!up ==> oldph + amt == newph && first_off >= amt && n0 > 0);
            assert(n0 == 0 ==> up && amt == 0);
        }
        // Move the live bytes into the new buffer, shifted.
        proof {
            if n0 > 0 {
                assert(self.rec_wf(0));
            }
        }
        let copy_len: usize = self.dyn_size - first_off;
        let dst0: usize = if up {
            p + first_off + amt
        } else {
            p + (first_off - amt)
        };
        if n0 > 0 {
            copy_range(&mut data, dst0, &self.dyn_data, self.pad + first_off, copy_len);
        }
        // The index, with every offset shifted the same way.
        let mut new_table: Vec<ElemRec> = Vec::new();
        let mut idx: usize = 0;
        while idx < n0
            invariant
                idx <= n0,
                new_table@.len() == idx,
                forall|k: int|
                    0 <= k < idx ==> {
                        let o = self.offs_table@[k];
                        let nr = #[trigger] new_table@[k];
                        nr.size == o.size && nr.align == o.align && nr.descr == o.descr
                            && nr.off == (if up {
                            o.off + amt
                        } else {
                            o.off - amt
                        })
                    },
            decreases n0 - idx,
        {
            let r = self.offs_table[idx];
            proof {
                assert(self.rec_wf(idx as int));
                if !up && idx > 0 {
                    assert(self.offs_table@[0].off + self.offs_table@[0].size
                        <= self.offs_table@[idx as int].off);
                }
            }
            let new_off: usize = if up {
                r.off + amt
            } else {
                r.off - amt
            };
            new_table.push(
                ElemRec { off: new_off, size: r.size, align: r.align, descr: r.descr },
            );
            idx += 1;
        }
        let new_size: usize = if n0 == 0 {
            self.dyn_size
        } else if up {
            self.dyn_size + amt
        } else {
            self.dyn_size - amt
        };
        let ghost pre = *self;
        let ghost predata = self.dyn_data@;
        self.offs_table = new_table;
        self.dyn_data = data;
        self.dyn_size = new_size;
        self.dyn_cap = new_cap;
        self.base = b;
        self.pad = p;
        proof {
            let n = self.offs_table@.len() as int;
            assert(n == pre.offs_table@.len());
            // Each element keeps its size, alignment and descriptor; its
            // offset moves by `amt`; its address keeps its alignment.
            assert forall|k: int| 0 <= k < n implies #[trigger] self.rec_wf(k) by {
                assert(pre.rec_wf(k));
                let o = pre.offs_table@[k];
                let nr = self.offs_table@[k];
                let ai = o.align as int;
                let mi = m as int;
                lemma_pow2_exponent(o.align);
                lemma_pow2_divides(ai, mi);
                lemma_fundamental_div_mod(b as int, mi);
                lemma_fundamental_div_mod(pre.base as int, mi);
                let qb = b as int / mi;
                let qa = pre.base as int / mi;
                assert(b == mi * qb + newph);
                assert(pre.base == mi * qa + oldph);
                let phoff = oldph + o.off;
                assert((pre.base + o.off) % mi == phoff % mi) by {
                    lemma_mod_multiples_vanish(qa, phoff, mi);
                }
                assert((b + nr.off) % mi == phoff % mi) by {
                    if up {
                        if newph + amt == oldph {
                            lemma_mod_multiples_vanish(qb, phoff, mi);
                        } else {
                            assert(b + nr.off == mi * (qb + 1) + phoff) by (nonlinear_arith)
                                requires
                                    b == mi * qb + newph,
                                    nr.off == o.off + amt,
                                    newph + amt == oldph + m,
                                    mi == m,
                                    phoff == oldph + o.off,
                            ;
                            lemma_mod_multiples_vanish(qb + 1, phoff, mi);
                        }
                    } else {
                        lemma_mod_multiples_vanish(qb, phoff, mi);
                    }
                }
                lemma_congruent_mod_divisor(b + nr.off, pre.base + o.off, ai, mi);
            }
            // Pairwise order is kept by a uniform shift.
            assert forall|i: int, j: int| 0 <= i < j < n implies #[trigger] self.offs_table@[i].off
                + self.offs_table@[i].size <= #[trigger] self.offs_table@[j].off by {
                assert(pre.offs_table@[i].off + pre.offs_table@[i].size
                    <= pre.offs_table@[j].off);
            }
            // With only the default alignment there is never a shift.
            if self.max_align == 16 {
                assert(oldph == 0 && newph == 0);
                assert(self.first_off_zero());
            }
            assert(self.wf());
            // The logical content is unchanged: each payload's bytes moved
            // with its offset.
            assert forall|k: int| 0 <= k < n implies self.elem_bytes(k) =~= pre.elem_bytes(k) by {
                assert(pre.rec_wf(k));
                let o = pre.offs_table@[k];
                let nr = self.offs_table@[k];
                if k > 0 {
                    assert(pre.offs_table@[0].off + pre.offs_table@[0].size <= o.off);
                }
                assert forall|i: int|
                    p + nr.off <= i < p + nr.off + o.size implies #[trigger] self.dyn_data@[i]
                    == predata[i - (p + nr.off) + (pre.pad + o.off)] by {
                    assert(dst0 <= i < dst0 + copy_len);
                    assert(i - dst0 + (pre.pad + first_off) == i - (p + nr.off) + (pre.pad
                        + o.off));
                }
            }
            assert(self@ =~= pre@);
            assert(self@ == old(self)@);
        }
    }

    /// Pushes one element: a payload of bytes, a power-of-two alignment
    /// requirement, and an opaque behavior descriptor. The payload is copied
    /// into the arena at the first address at or past the live bytes that
    /// satisfies `align` — allocating on first use and growing as needed —
    /// and its record is appended to the index. Afterwards every element's
    /// address, the new one's included, satisfies that element's alignment.
    #[verifier::rlimit(60)]
    pub fn push(&mut self, bytes: &Vec<u8>, align: usize, descr: usize)
        requires
            old(self).wf(),
            is_pow2(align as int),
            old(self).live_size() + align + bytes@.len() + old(self).max_align_spec()
                <= usize::MAX / 4,
        ensures
            final(self).wf(),
            final(self)@ == old(self)@.push((bytes@, align, descr)),
            final(self).max_align_spec() == if align > old(self).max_align_spec() {
                align as nat
            } else {
                old(self).max_align_spec()
            },
            final(self).live_size() <= old(self).live_size() + old(self).max_align_spec()
                + align + bytes@.len(),
            final(self).capacity_spec() > 0,
            forall|i: int|
                0 <= i < final(self)@.len() ==> #[trigger] final(self).elem_addr(i) % (final(
                self)@[i].1 as int) == 0,
    {
        let size = bytes.len();
        proof {
            lemma_pow2_exponent(align);
        }
        if self.dyn_cap == 0 {
            self.allocate(size);
        }
        let mut align_offs = align_pad(self.base + self.dyn_size, align);
        if self.dyn_size + align_offs + size > self.dyn_cap {
            self.grow(align + size);
            align_offs = align_pad(self.base + self.dyn_size, align);
        }
        let off = self.dyn_size + align_offs;
        let ghost mid = *self;
        copy_range(&mut self.dyn_data, self.pad + off, bytes, 0, size);
        self.offs_table.push(ElemRec { off, size, align, descr });
        self.dyn_size = off + size;
        if align > self.max_align {
            self.max_align = align;
        }
        proof {
            let n0 = mid.offs_table@.len() as int;
            assert(mid@ == old(self)@);
            assert(mid.wf());
            // The old records are untouched and keep their well-formedness.
            assert forall|k: int| 0 <= k < n0 implies #[trigger] self.rec_wf(k) by {
                assert(mid.rec_wf(k));
            }
            // The new record: placed at or past the live bytes, aligned.
            assert(self.rec_wf(n0)) by {
                assert((self.base + off) % (align as int) == 0);
            }
            // Pairwise order: the new payload starts at or past every old
            // payload's end.
            assert forall|i: int, j: int| 0 <= i < j < n0 + 1 implies #[trigger] self.offs_table@[
            i].off + self.offs_table@[i].size <= #[trigger] self.offs_table@[j].off by {
                assert(mid.rec_wf(i));
                if j < n0 {
                    assert(mid.offs_table@[i].off + mid.offs_table@[i].size
                        <= mid.offs_table@[j].off);
                }
            }
            // With only the default alignment, the very first payload sits at
            // offset zero.
            if self.max_align == 16 {
                assert(mid.max_align == 16);
                if n0 == 0 {
                    assert(mid.dyn_size == 0);
                    assert(mid.base % 16 == 0);
                    lemma_pow2_divides(align as int, 16);
                    lemma_congruent_mod_divisor(mid.base as int, 0, align as int, 16);
                    assert((mid.base + mid.dyn_size) % (align as int) == 0);
                    assert(align_offs == 0);
                    assert(self.offs_table@[0].off == 0);
                }
                assert(self.first_off_zero());
            }
            assert(self.wf());
            // The old payloads' bytes are unchanged: the copy wrote at or
            // past the live region.
            assert forall|k: int| 0 <= k < n0 implies self.elem_bytes(k) =~= mid.elem_bytes(
            k) by {
                assert(mid.rec_wf(k));
                let o = mid.offs_table@[k];
                assert forall|i: int|
                    mid.pad + o.off <= i < mid.pad + o.off + o.size implies #[trigger] self
                    .dyn_data@[i] == mid.dyn_data@[i] by {
                    assert(i < mid.pad + mid.dyn_size);
                }
            }
            // The new payload's bytes are exactly the pushed bytes.
            assert(self.elem_bytes(n0) =~= bytes@) by {
                assert forall|i: int|
                    self.pad + off <= i < self.pad + off + size implies #[trigger] self.dyn_data@[
                i] == bytes@[i - (self.pad + off)] by {}
            }
            assert(self@ =~= old(self)@.push((bytes@, align, descr)));
            self.lemma_all_aligned();
        }
    }

    /// Retrieves the reference pair (payload address, descriptor) for the
    /// element at `index`; `None` when the index is out of range. The
    /// address satisfies the element's alignment requirement.
    pub fn get(&self, index: usize) -> (r: Option<(usize, usize)>)
        requires
            self.wf(),
        ensures
            index < self@.len() ==> (r matches Some(p) && p.0 == self.elem_addr(index as int)
                && p.1 == self@[index as int].2 && p.0 as int % (self@[index as int].1 as int)
                == 0),
            index >= self@.len() ==> r is None,
    {
        if index < self.offs_table.len() {
            let rec = self.offs_table[index];
            proof {
                assert(self.rec_wf(index as int));
            }
            Some((self.base + rec.off, rec.descr))
        } else {
            None
        }
    }

    /// Mutable-access variant of `get`. The stack itself is not changed: in
    /// this model a mutable reference to an element is the same
    /// (address, descriptor) pair, reached through an exclusive borrow.
    pub fn get_mut(&mut self, index: usize) -> (r: Option<(usize, usize)>)
        requires
            old(self).wf(),
        ensures
            *final(self) == *old(self),
            index < old(self)@.len() ==> (r matches Some(p) && p.0 == old(self).elem_addr(
                index as int) && p.1 == old(self)@[index as int].2 && p.0 as int % (old(
                self)@[index as int].1 as int) == 0),
            index >= old(self)@.len() ==> r is None,
    {
        self.get(index)
    }

    /// Retrieves the reference pair for the most recently pushed element, or
    /// `None` when the stack is empty.
    pub fn peek(&self) -> (r: Option<(usize, usize)>)
        requires
            self.wf(),
        ensures
            self@.len() > 0 ==> (r matches Some(p) && p.0 == self.elem_addr(self@.len() - 1)
                && p.1 == self@.last().2 && p.0 as int % (self@.last().1 as int) == 0),
            self@.len() == 0 ==> r is None,
    {
        let n = self.offs_table.len();
        if n == 0 {
            None
        } else {
            self.get(n - 1)
        }
    }

    /// Mutable-access variant of `peek`.
    pub fn peek_mut(&mut self) -> (r: Option<(usize, usize)>)
        requires
            old(self).wf(),
        ensures
            *final(self) == *old(self),
            old(self)@.len() > 0 ==> (r matches Some(p) && p.0 == old(self).elem_addr(
                old(self)@.len() - 1) && p.1 == old(self)@.last().2 && p.0 as int % (old(
                self)@.last().1 as int) == 0),
            old(self)@.len() == 0 ==> r is None,
    {
        let n = self.offs_table.len();
        if n == 0 {
            None
        } else {
            self.get(n - 1)
        }
    }

    /// Removes the most recently pushed element: its record is popped and
    /// the live bytes shrink back to that record's offset. Returns whether
    /// an element was removed, so `false` exactly on an empty stack.
    pub fn remove_last(&mut self) -> (removed: bool)
        requires
            old(self).wf(),
        ensures
            final(self).wf(),
            removed == (old(self)@.len() > 0),
            old(self)@.len() > 0 ==> final(self)@ == old(self)@.drop_last() && final(
            self).live_size() == old(self).elem_off(old(self)@.len() - 1),
            old(self)@.len() == 0 ==> *final(self) == *old(self),
            final(self).max_align_spec() == old(self).max_align_spec(),
            final(self).capacity_spec() == old(self).capacity_spec(),
            (old(self).max_align_spec() == 16 && old(self)@.len() == 1) ==> final(
            self).live_size() == 0,
    {
        let n = self.offs_table.len();
        if n == 0 {
            return false;
        }
        let ghost pre = *self;
        let popped = self.offs_table.pop().unwrap();
        self.dyn_size = popped.off;
        proof {
            assert(popped == pre.offs_table@[n - 1]);
            assert(pre.rec_wf(n - 1));
            assert forall|k: int| 0 <= k < n - 1 implies #[trigger] self.rec_wf(k) by {
                assert(pre.rec_wf(k));
                assert(pre.offs_table@[k].off + pre.offs_table@[k].size
                    <= pre.offs_table@[n - 1].off);
            }
            if self.max_align == 16 {
                assert(pre.first_off_zero());
                assert(self.first_off_zero());
            }
            assert(self.wf());
            assert forall|k: int| 0 <= k < n - 1 implies self.elem_bytes(k) == pre.elem_bytes(
            k) by {
                assert(self.elem_bytes(k) =~= pre.elem_bytes(k));
            }
            assert(self@ =~= pre@.drop_last());
        }
        true
    }

    /// Removes every element, most recent first — the order in which the
    /// container's teardown destroys its payloads.
    pub fn clear(&mut self)
        requires
            old(self).wf(),
        ensures
            final(self).wf(),
            final(self)@ == Seq::<ElemView>::empty(),
            final(self).capacity_spec() == old(self).capacity_spec(),
            final(self).max_align_spec() == old(self).max_align_spec(),
            old(self).max_align_spec() == 16 ==> final(self).live_size() == 0,
    {
        let mut n = self.offs_table.len();
        while n > 0
            invariant
                self.wf(),
                n == self@.len(),
                self.capacity_spec() == old(self).capacity_spec(),
                self.max_align_spec() == old(self).max_align_spec(),
            decreases n,
        {
            self.remove_last();
            n = n - 1;
        }
        proof {
            assert(self@ =~= Seq::<ElemView>::empty());
            if self.max_align == 16 {
                assert(self.first_off_zero());
            }
        }
    }

    /// Copies out the payload bytes of the element at `index`; `None` when
    /// the index is out of range. Together with `get` this reads an element
    /// back: the bytes are exactly the pushed payload.
    #[verifier::loop_isolation(false)]
    pub fn payload_bytes(&self, index: usize) -> (r: Option<Vec<u8>>)
        requires
            self.wf(),
        ensures
            index < self@.len() ==> (r matches Some(v) && v@ == self@[index as int].0),
            index >= self@.len() ==> r is None,
    {
        if index >= self.offs_table.len() {
            return None;
        }
        let rec = self.offs_table[index];
        proof {
            assert(self.rec_wf(index as int));
        }
        let mut out: Vec<u8> = Vec::new();
        let mut k: usize = 0;
        while k < rec.size
            invariant
                k <= rec.size,
                out@.len() == k,
                forall|t: int|
                    0 <= t < k ==> #[trigger] out@[t] == self.dyn_data@[self.pad + rec.off + t],
            decreases rec.size - k,
        {
            let b = self.dyn_data[self.pad + rec.off + k];
            out.push(b);
            k += 1;
        }
        proof {
            assert(out@ =~= self@[index as int].0);
        }
        Some(out)
    }

    /// Indexed access for call sites that already guarantee validity: the
    /// index must be in range.
    pub fn index(&self, idx: usize) -> (r: (usize, usize))
        requires
            self.wf(),
            idx < self@.len(),
        ensures
            r.0 == self.elem_addr(idx as int),
            r.1 == self@[idx as int].2,
            r.0 as int % (self@[idx as int].1 as int) == 0,
    {
        let rec = self.offs_table[idx];
        proof {
            assert(self.rec_wf(idx as int));
        }
        (self.base + rec.off, rec.descr)
    }
}

impl View for DynStack {
    type V = Seq<ElemView>;

    /// The stack's logical content: for each element, in insertion order,
    /// its payload bytes, its alignment requirement and its descriptor.
    closed spec fn view(&self) -> Seq<ElemView> {
        Seq::new(
            self.offs_table@.len(),
            |i: int| (self.elem_bytes(i), self.offs_table@[i].align, self.offs_table@[i].descr),
        )
    }
}

} // verus!
