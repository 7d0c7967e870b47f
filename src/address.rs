use vstd::prelude::*;

verus! {

/// A 20-byte ledger account or contract address.
#[derive(Clone, Copy, Debug)]
pub struct Address {
    pub bytes: [u8; 20],
}

impl View for Address {
    type V = Seq<u8>;

    open spec fn view(&self) -> Seq<u8> {
        self.bytes@
    }
}

/// The 32-byte word that holds `a` right-aligned: twelve zero bytes, then the address.
pub open spec fn address_word(a: Seq<u8>) -> Seq<u8> {
    Seq::new(12, |i: int| 0u8) + a
}

/// The 32-byte big-endian word of an unsigned integer.
pub open spec fn u64_word(v: u64) -> Seq<u8> {
    Seq::new(32, |i: int| if i < 24 { 0u8 } else { word_byte(v, (31 - i) as u64) })
}

/// Byte `k` of `v`, counted from the least significant.
pub open spec fn word_byte(v: u64, k: u64) -> u8 {
    ((v >> (k * 8)) & 0xff) as u8
}

/// A word whose last byte is `b`, all others zero (the boolean results of the contracts).
pub open spec fn small_word(b: u8) -> Seq<u8> {
    Seq::new(32, |i: int| if i == 31 { b } else { 0u8 })
}

impl Address {
    /// The address made of the 20 bytes `b[offset..offset + 20]`.
    pub fn from_slice_at(b: &[u8], offset: usize) -> (r: Address)
        requires
            offset + 20 <= b@.len(),
        ensures
            r@ == b@.subrange(offset as int, offset + 20),
    {
        let n = b.len();
        let mut bytes = [0u8; 20];
        let mut i: usize = 0;
        while i < 20
            invariant
                n == b@.len(),
                offset + 20 <= b@.len(),
                i <= 20,
                forall|j: int| 0 <= j < i ==> bytes@[j] == b@[offset + j],
            decreases 20 - i,
        {
            bytes[i] = b[offset + i];
            i = i + 1;
        }
        let r = Address { bytes };
        assert(r@ =~= b@.subrange(offset as int, offset + 20));
        r
    }

    /// The address held in the 20 bytes of `b`; `None` where `b` is not 20 bytes long.
    pub fn from_bytes(b: &[u8]) -> (r: Option<Address>)
        ensures
            r is Some <==> b@.len() == 20,
            r matches Some(a) ==> a@ == b@,
    {
        if b.len() == 20 {
            let a = Address::from_slice_at(b, 0);
            assert(b@.subrange(0, 20) =~= b@);
            Some(a)
        } else {
            None
        }
    }

    /// Whether two addresses hold the same bytes.
    pub fn same(&self, o: &Address) -> (r: bool)
        ensures
            r == (self@ == o@),
    {
        let mut i: usize = 0;
        while i < 20
            invariant
                i <= 20,
                forall|j: int| 0 <= j < i ==> self@[j] == o@[j],
            decreases 20 - i,
        {
            if self.bytes[i] != o.bytes[i] {
                return false;
            }
            i = i + 1;
        }
        assert(self@ =~= o@);
        true
    }

    /// The address as a right-aligned 32-byte word.
    pub fn to_word(&self) -> (r: Vec<u8>)
        ensures
            r@ == address_word(self@),
    {
        let mut r: Vec<u8> = Vec::new();
        let mut i: usize = 0;
        while i < 12
            invariant
                i <= 12,
                r@ =~= Seq::new(i as nat, |k: int| 0u8),
            decreases 12 - i,
        {
            r.push(0u8);
            i = i + 1;
        }
        let mut j: usize = 0;
        while j < 20
            invariant
                j <= 20,
                r@ =~= Seq::new(12, |k: int| 0u8) + self@.subrange(0, j as int),
            decreases 20 - j,
        {
            r.push(self.bytes[j]);
            j = j + 1;
        }
        assert(self@.subrange(0, 20) =~= self@);
        r
    }

    pub fn to_vec(&self) -> (r: Vec<u8>)
        ensures
            r@ == self@,
    {
        let mut r: Vec<u8> = Vec::new();
        let mut j: usize = 0;
        while j < 20
            invariant
                j <= 20,
                r@ =~= self@.subrange(0, j as int),
            decreases 20 - j,
        {
            r.push(self.bytes[j]);
            j = j + 1;
        }
        r
    }
}

impl PartialEq for Address {
    fn eq(&self, o: &Address) -> (r: bool) {
        self.same(o)
    }
}

impl vstd::std_specs::cmp::PartialEqSpecImpl for Address {
    open spec fn obeys_eq_spec() -> bool {
        true
    }

    open spec fn eq_spec(&self, o: &Address) -> bool {
        self@ == o@
    }
}

impl Eq for Address {
}

/// The big-endian 32-byte word of `v`.
pub fn u64_to_word(v: u64) -> (r: Vec<u8>)
    ensures
        r@ == u64_word(v),
{
    let mut r: Vec<u8> = Vec::new();
    let mut i: usize = 0;
    while i < 32
        invariant
            i <= 32,
            r@.len() == i,
            forall|j: int| 0 <= j < i ==> r@[j] == u64_word(v)[j],
        decreases 32 - i,
    {
        if i < 24 {
            r.push(0u8);
        } else {
            let k: u64 = (31 - i) as u64;
            r.push(((v >> (k * 8)) & 0xff) as u8);
        }
        i = i + 1;
    }
    assert(r@ =~= u64_word(v));
    r
}

/// The word that holds `b` in its last byte.
pub fn small_word_of(b: u8) -> (r: Vec<u8>)
    ensures
        r@ == small_word(b),
{
    let mut r: Vec<u8> = Vec::new();
    let mut i: usize = 0;
    while i < 31
        invariant
            i <= 31,
            r@ =~= Seq::new(i as nat, |k: int| 0u8),
        decreases 31 - i,
    {
        r.push(0u8);
        i = i + 1;
    }
    r.push(b);
    assert(r@ =~= small_word(b));
    r
}

} // verus!
