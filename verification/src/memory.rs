//! Byte-addressed memory for the virtual machine.
use vstd::prelude::*;

verus! {

/// The byte at `addr`, if the address lies in memory.
pub open spec fn spec_read(mem: Seq<u8>, addr: int) -> Option<u8> {
    if 0 <= addr < mem.len() { Some(mem[addr]) } else { None }
}

/// Memory after writing `value` at `addr` (unchanged when the address lies outside).
pub open spec fn spec_write(mem: Seq<u8>, addr: int, value: u8) -> Seq<u8> {
    if 0 <= addr < mem.len() { mem.update(addr, value) } else { mem }
}

/// The little-endian word at `addr`, if both of its bytes lie in memory.
pub open spec fn spec_read2(mem: Seq<u8>, addr: int) -> Option<u16> {
    match (spec_read(mem, addr), spec_read(mem, addr + 1)) {
        (Some(low), Some(high)) => Some((low as u16) | ((high as u16) << 8u16)),
        _ => None,
    }
}

/// Memory after writing the little-endian word `value` at `addr`; the low
/// byte is written first, and the high byte only if the low one was.
pub open spec fn spec_write2(mem: Seq<u8>, addr: int, value: u16) -> Seq<u8> {
    if 0 <= addr < mem.len() {
        spec_write(spec_write(mem, addr, (value & 0xff) as u8), addr + 1, ((value & 0xff00) >> 8u16) as u8)
    } else {
        mem
    }
}

/// Memory after copying the first `i` bytes from `from` to `to`, one byte
/// at a time in increasing order.
pub open spec fn spec_copy(mem: Seq<u8>, from: int, to: int, i: nat) -> Seq<u8>
    decreases i,
{
    if i == 0 {
        mem
    } else {
        let m = spec_copy(mem, from, to, (i - 1) as nat);
        spec_write(m, to + i - 1, m[from + i - 1])
    }
}

/// How many bytes can be copied from `from` to `to` in memory of `n` bytes
/// before one of the addresses runs out of range.
pub open spec fn copy_room(n: int, from: int, to: int) -> nat {
    if from >= n || to >= n { 0 } else if n - from <= n - to { (n - from) as nat } else { (n - to) as nat }
}

proof fn lemma_copy_len(mem: Seq<u8>, from: int, to: int, i: nat)
    ensures
        spec_copy(mem, from, to, i).len() == mem.len(),
    decreases i,
{
    if i > 0 {
        lemma_copy_len(mem, from, to, (i - 1) as nat);
    }
}

/// Something the machine can read bytes from and write bytes to.
pub trait Addressable {
    /// The bytes held, indexed by address.
    spec fn contents(&self) -> Seq<u8>;

    fn read(&self, addr: u16) -> (r: Option<u8>)
        ensures
            r == spec_read(self.contents(), addr as int),
    ;

    fn write(&mut self, addr: u16, value: u8) -> (ok: bool)
        ensures
            ok == ((addr as int) < old(self).contents().len()),
            final(self).contents() == spec_write(old(self).contents(), addr as int, value),
    ;

    /// Reads the little-endian word at `addr`.
    fn read2(&self, addr: u16) -> (r: Option<u16>)
        requires
            addr < u16::MAX,
        ensures
            r == spec_read2(self.contents(), addr as int),
    {
        let low = self.read(addr)?;
        let high = self.read(addr + 1)?;
        Some((low as u16) | (high as u16) << 8)
    }

    /// Writes the little-endian word `value` at `addr`.
    fn write2(&mut self, addr: u16, value: u16) -> (ok: bool)
        requires
            addr < u16::MAX,
        ensures
            ok == ((addr as int) + 1 < old(self).contents().len()),
            final(self).contents() == spec_write2(old(self).contents(), addr as int, value),
    {
        let low = value & 0xff;
        let high = (value & 0xff00) >> 8;
        self.write(addr, low as u8) && self.write(addr + 1, high as u8)
    }

    /// Copies `len` bytes from `from` to `to`, one byte at a time in
    /// increasing order, stopping at the first address that is out of range.
    fn copy(&mut self, from: u16, to: u16, len: usize) -> (ok: bool)
        requires
            from as int + len <= u16::MAX as int + 1,
            to as int + len <= u16::MAX as int + 1,
        ensures
            ok == (len == 0 || (from as int + len <= old(self).contents().len() && to as int + len
                <= old(self).contents().len())),
            final(self).contents().len() == old(self).contents().len(),
            final(self).contents() == spec_copy(old(self).contents(), from as int, to as int,
                if ok { len as nat } else { copy_room(old(self).contents().len() as int, from as int, to as int) }),
    {
        let ghost n = self.contents().len();
        let ghost m0 = old(self).contents();
        let mut i: usize = 0;
        while i < len
            invariant
                i <= len,
                from as int + len <= u16::MAX as int + 1,
                to as int + len <= u16::MAX as int + 1,
                self.contents().len() == n,
                n == old(self).contents().len(),
                m0 == old(self).contents(),
                i > 0 ==> from as int + i <= n && to as int + i <= n,
                i <= copy_room(n as int, from as int, to as int) || i == 0,
                self.contents() == spec_copy(m0, from as int, to as int, i as nat),
            decreases len - i,
        {
            proof {
                lemma_copy_len(m0, from as int, to as int, i as nat);
            }
            if let Some(x) = self.read(from + (i as u16)) {
                if !self.write(to + (i as u16), x) {
                    assert(spec_copy(m0, from as int, to as int, i as nat) == self.contents());
                    return false;
                }
            } else {
                return false;
            }
            i = i + 1;
        }
        true
    }
}

/// Memory made of one contiguous block of bytes, starting at address zero.
pub struct LinearMemory {
    pub bytes: Vec<u8>,
}

impl LinearMemory {
    /// The memory's invariant (nothing beyond what its type says).
    pub open spec fn wf(&self) -> bool {
        true
    }

    /// A memory of `n` zero bytes.
    pub fn new(n: usize) -> (m: LinearMemory)
        ensures
            m.wf(),
            m.contents() == Seq::new(n as nat, |i: int| 0u8),
    {
        let mut bytes: Vec<u8> = Vec::new();
        let mut i: usize = 0;
        while i < n
            invariant
                i <= n,
                bytes@ == Seq::new(i as nat, |j: int| 0u8),
            decreases n - i,
        {
            bytes.push(0);
            i = i + 1;
            assert(bytes@ =~= Seq::new(i as nat, |j: int| 0u8));
        }
        LinearMemory { bytes }
    }

    /// The number of bytes held.
    pub fn size(&self) -> (n: usize)
        requires
            self.wf(),
        ensures
            n == self.contents().len(),
    {
        self.bytes.len()
    }

    /// Sets every byte to zero.
    pub fn zero_all(&mut self)
        requires
            old(self).wf(),
        ensures
            final(self).wf(),
            final(self).contents() == Seq::new(old(self).contents().len(), |i: int| 0u8),
    {
        let mut i: usize = 0;
        while i < self.bytes.len()
            invariant
                self.bytes@.len() == old(self).bytes@.len(),
                i <= self.bytes@.len(),
                forall|j: int| 0 <= j < i ==> self.bytes@[j] == 0u8,
            decreases self.bytes.len() - i,
        {
            self.bytes.set(i, 0);
            i = i + 1;
        }
        assert(self.bytes@ =~= Seq::new(old(self).contents().len(), |i: int| 0u8));
    }
}

impl Addressable for LinearMemory {
    open spec fn contents(&self) -> Seq<u8> {
        self.bytes@
    }

    fn read(&self, addr: u16) -> (r: Option<u8>) {
        if (addr as usize) < self.bytes.len() {
            Some(self.bytes[addr as usize])
        } else {
            None
        }
    }

    fn write(&mut self, addr: u16, value: u8) -> (ok: bool) {
        if (addr as usize) < self.bytes.len() {
            self.bytes.set(addr as usize, value);
            true
        } else {
            false
        }
    }
}

/// Reading a byte gives back what was last written there.
pub proof fn law_read_after_write(mem: Seq<u8>, addr: int, value: u8)
    requires
        0 <= addr < mem.len(),
    ensures
        spec_read(spec_write(mem, addr, value), addr) == Some(value),
{
}

/// Writing a byte leaves every other byte as it was.
pub proof fn law_write_keeps_others(mem: Seq<u8>, addr: int, other: int, value: u8)
    requires
        addr != other,
    ensures
        spec_read(spec_write(mem, addr, value), other) == spec_read(mem, other),
{
}

/// Reading a word gives back the word last written there, when both of its
/// bytes lie in memory.
pub proof fn law_read2_after_write2(mem: Seq<u8>, addr: int, value: u16)
    requires
        0 <= addr,
        addr + 1 < mem.len(),
    ensures
        spec_read2(spec_write2(mem, addr, value), addr) == Some(value),
{
    let low = (value & 0xff) as u8;
    let high = ((value & 0xff00) >> 8u16) as u8;
    assert((low as u16) | ((high as u16) << 8u16) == value) by (bit_vector)
        requires
            low == (value & 0xff) as u8,
            high == ((value & 0xff00) >> 8u16) as u8,
    ;
}

/// Writing a word leaves every byte outside its two bytes as it was.
pub proof fn law_write2_keeps_others(mem: Seq<u8>, addr: int, other: int, value: u16)
    requires
        other != addr,
        other != addr + 1,
    ensures
        spec_read(spec_write2(mem, addr, value), other) == spec_read(mem, other),
{
}

/// Copying between two ranges that do not overlap puts at each address of
/// the target the byte that stood at the same offset in the source, and
/// leaves every address outside the target as it was.
pub proof fn law_copy_moves_bytes(mem: Seq<u8>, from: int, to: int, len: nat)
    requires
        0 <= from,
        0 <= to,
        from + len <= mem.len(),
        to + len <= mem.len(),
        from + len <= to || to + len <= from,
    ensures
        spec_copy(mem, from, to, len).len() == mem.len(),
        forall|j: int| 0 <= j < len ==> #[trigger] spec_copy(mem, from, to, len)[to + j] == mem[from + j],
        forall|a: int| 0 <= a < mem.len() && !(to <= a < to + len) ==> #[trigger] spec_copy(mem, from, to, len)[a] == mem[a],
    decreases len,
{
    lemma_copy_len(mem, from, to, len);
    if len > 0 {
        let k = (len - 1) as nat;
        law_copy_moves_bytes(mem, from, to, k);
        let m = spec_copy(mem, from, to, k);
        lemma_copy_len(mem, from, to, k);
        assert(m[from + k] == mem[from + k]);
        let r = spec_copy(mem, from, to, len);
        assert forall|j: int| 0 <= j < len implies #[trigger] r[to + j] == mem[from + j] by {
            if j < k {
                assert(m[to + j] == mem[from + j]);
            }
        }
        assert forall|a: int| 0 <= a < mem.len() && !(to <= a < to + len) implies #[trigger] r[a] == mem[a] by {
            assert(m[a] == mem[a]);
        }
    }
}

} // verus!
