//! Object-dictionary interface: addressed entries of raw value bytes, looked
//! up by (index, sub-index). The dictionary storage and its configuration
//! parsing live outside this core; this module gives the node the narrow
//! read/write surface it needs, keyed by `index * 256 + sub_index`.

use vstd::prelude::*;
use vstd::arithmetic::power2::{
    pow2, lemma_pow2_adds, lemma_pow2_strictly_increases, lemma2_to64, lemma2_to64_rest,
};
use vstd::arithmetic::mul::{lemma_mul_inequality, lemma_mul_is_distributive_sub_other_way};
use vstd::bits::lemma_u64_shl_is_mul;
use std::collections::HashMap;
use crate::codec::be_bytes_value;

verus! {

broadcast use vstd::std_specs::hash::group_hash_axioms;

/// Error kinds surfaced by this core.
#[derive(PartialEq, Eq, Structural, Clone, Copy, Debug)]
pub enum ErrorCode {
    /// A referenced dictionary entry is absent, or a mapped entry cannot be
    /// rendered into one CAN frame.
    DictionaryAccessError,
}

/// One addressed object-dictionary entry: its address and its raw value
/// bytes, stored most significant byte first.
pub struct Variable {
    pub index: u16,
    pub sub_index: u8,
    pub data: Vec<u8>,
}

/// The dictionary key packing an (index, sub-index) address into one word.
pub open spec fn key_of(index: u16, sub_index: u8) -> u64 {
    (index as u64 * 256 + sub_index as u64) as u64
}

/// Value of the trailing `n` bytes of an entry (the whole entry when it is
/// shorter), read big-endian.
pub open spec fn tail_bytes(s: Seq<u8>, n: nat) -> Seq<u8> {
    if s.len() <= n {
        s
    } else {
        s.skip(s.len() - n)
    }
}

/// An entry's value truncated to its trailing `n` bytes.
pub open spec fn spec_val(s: Seq<u8>, n: nat) -> nat {
    be_bytes_value(tail_bytes(s, n))
}

/// An entry's value as an unsigned 32-bit configuration word.
pub open spec fn spec_u32(s: Seq<u8>) -> u32 {
    spec_val(s, 4) as u32
}

/// An entry's value as an unsigned 16-bit configuration word.
pub open spec fn spec_u16(s: Seq<u8>) -> u16 {
    spec_val(s, 2) as u16
}

/// An entry's value as an unsigned byte.
pub open spec fn spec_u8(s: Seq<u8>) -> u8 {
    spec_val(s, 1) as u8
}

/// Reads the trailing `n` bytes of a buffer as one big-endian integer.
fn be_tail_u64(v: &Vec<u8>, n: usize) -> (r: u64)
    requires
        1 <= n <= 8,
    ensures
        r as nat == spec_val(v@, n as nat),
        r < pow2(8 * n as nat),
{
    let start: usize = if v.len() > n {
        v.len() - n
    } else {
        0
    };
    let ghost tail: Seq<u8> = tail_bytes(v@, n as nat);
    proof {
        assert(tail =~= v@.subrange(start as int, v@.len() as int));
        lemma2_to64();
        assert(pow2(0) == 1);
    }
    let mut res: u64 = 0;
    let mut i: usize = start;
    while i < v.len()
        invariant
            start <= i <= v@.len(),
            v@.len() - start <= n <= 8,
            tail =~= v@.subrange(start as int, v@.len() as int),
            res as nat == be_bytes_value(v@.subrange(start as int, i as int)),
            res < pow2(8 * (i - start) as nat),
        decreases v@.len() - i,
    {
        proof {
            lemma2_to64();
            lemma2_to64_rest();
            lemma_pow2_strictly_increases(8 * (i - start) as nat, 64);
            lemma_mul_inequality(res as int, pow2(8 * (i - start) as nat) - 1, 256);
            lemma_mul_is_distributive_sub_other_way(256, pow2(8 * (i - start) as nat) as int, 1);
            lemma_pow2_adds(8 * (i - start) as nat, 8);
            if 8 * (i - start) as nat + 8 < 64 {
                lemma_pow2_strictly_increases(8 * (i - start) as nat + 8, 64);
            }
            lemma_u64_shl_is_mul(res, 8);
        }
        let b: u64 = v[i] as u64;
        let shifted: u64 = res << 8u64;
        assert(shifted & 0xFF == 0) by (bit_vector)
            requires
                shifted == res << 8u64,
        ;
        assert(shifted | b == shifted + b) by (bit_vector)
            requires
                shifted & 0xFF == 0,
                b < 0x100,
        ;
        res = shifted | b;
        proof {
            assert(v@.subrange(start as int, i + 1).drop_last() =~= v@.subrange(
                start as int,
                i as int,
            ));
            assert(v@.subrange(start as int, i + 1).last() == v@[i as int]);
        }
        i = i + 1;
    }
    proof {
        if v@.len() - start < n {
            lemma_pow2_strictly_increases(
                8 * (v@.len() - start) as nat,
                8 * n as nat,
            );
        }
    }
    res
}

impl Variable {
    /// Builds an entry from its address and raw value bytes.
    pub fn new(index: u16, sub_index: u8, data: Vec<u8>) -> (r: Variable)
        ensures
            r.index == index,
            r.sub_index == sub_index,
            r.data@ == data@,
    {
        Variable { index, sub_index, data }
    }

    /// A field-for-field copy of this entry.
    pub fn duplicate(&self) -> (r: Variable)
        ensures
            r.index == self.index,
            r.sub_index == self.sub_index,
            r.data@ == self.data@,
    {
        let mut bytes: Vec<u8> = Vec::new();
        let n = self.data.len();
        for i in 0..n
            invariant
                n == self.data@.len(),
                bytes@ =~= self.data@.take(i as int),
        {
            bytes.push(self.data[i]);
        }
        proof {
            assert(self.data@.take(n as int) =~= self.data@);
        }
        Variable { index: self.index, sub_index: self.sub_index, data: bytes }
    }

    /// The entry value as a 32-bit configuration word.
    pub fn val_u32(&self) -> (r: u32)
        ensures
            r == spec_u32(self.data@),
    {
        proof {
            lemma2_to64();
        }
        be_tail_u64(&self.data, 4) as u32
    }

    /// The entry value as a 16-bit configuration word.
    pub fn val_u16(&self) -> (r: u16)
        ensures
            r == spec_u16(self.data@),
    {
        proof {
            lemma2_to64();
        }
        be_tail_u64(&self.data, 2) as u16
    }

    /// The entry value as a single byte.
    pub fn val_u8(&self) -> (r: u8)
        ensures
            r == spec_u8(self.data@),
    {
        proof {
            lemma2_to64();
        }
        be_tail_u64(&self.data, 1) as u8
    }
}

/// The dictionary content described by a list of entries, later entries
/// overriding earlier ones with the same address.
pub open spec fn dict_of(content: Seq<Variable>) -> Map<u64, Seq<u8>>
    decreases content.len(),
{
    if content.len() == 0 {
        Map::empty()
    } else {
        dict_of(content.drop_last()).insert(
            key_of(content.last().index, content.last().sub_index),
            content.last().data@,
        )
    }
}

/// In-memory object dictionary: entries addressed by (index, sub-index).
pub struct ObjectDictionary {
    map: HashMap<u64, Variable>,
}

impl View for ObjectDictionary {
    type V = Map<u64, Seq<u8>>;

    closed spec fn view(&self) -> Map<u64, Seq<u8>> {
        self.map@.map_values(|v: Variable| v.data@)
    }
}

impl ObjectDictionary {
    /// Every stored entry sits under the key made of its own address.
    pub closed spec fn wf(self) -> bool {
        forall|k: u64| #[trigger]
            self.map@.contains_key(k) ==> key_of(
                self.map@[k].index,
                self.map@[k].sub_index,
            ) == k
    }

    /// Whether an entry exists at the given address.
    pub open spec fn contains(self, index: u16, sub_index: u8) -> bool {
        self@.contains_key(key_of(index, sub_index))
    }

    /// The value bytes of the entry at the given address.
    pub open spec fn data_at(self, index: u16, sub_index: u8) -> Seq<u8> {
        self@[key_of(index, sub_index)]
    }

    /// An empty dictionary.
    pub fn new() -> (r: ObjectDictionary)
        ensures
            r.wf(),
            r@ == Map::<u64, Seq<u8>>::empty(),
    {
        let m = HashMap::<u64, Variable>::new();
        proof {
            assert(m@.map_values(|v: Variable| v.data@) =~= Map::<u64, Seq<u8>>::empty());
        }
        ObjectDictionary { map: m }
    }

    /// Looks an entry up by its address.
    pub fn get_variable(&self, index: u16, sub_index: u8) -> (r: Result<&Variable, ErrorCode>)
        requires
            self.wf(),
        ensures
            match r {
                Ok(v) => self.contains(index, sub_index) && v.index == index && v.sub_index
                    == sub_index && v.data@ == self.data_at(index, sub_index),
                Err(e) => !self.contains(index, sub_index) && e
                    == ErrorCode::DictionaryAccessError,
            },
    {
        let key: u64 = (index as u64) * 256 + (sub_index as u64);
        match self.map.get(&key) {
            Some(v) => {
                proof {
                    assert(self.map@.contains_key(key) && self.map@[key] == *v);
                    assert(self@.contains_key(key) && self@[key] == v.data@);
                }
                Ok(v)
            },
            None => {
                proof {
                    assert(!self.map@.contains_key(key));
                    assert(!self@.contains_key(key));
                }
                Err(ErrorCode::DictionaryAccessError)
            },
        }
    }

    /// Stores an entry under its own address, replacing any previous value.
    pub fn set_variable(&mut self, var: Variable)
        requires
            old(self).wf(),
        ensures
            final(self).wf(),
            final(self)@ == old(self)@.insert(key_of(var.index, var.sub_index), var.data@),
    {
        let key: u64 = (var.index as u64) * 256 + (var.sub_index as u64);
        let ghost vdata: Seq<u8> = var.data@;
        let ghost oldmap: Map<u64, Variable> = self.map@;
        self.map.insert(key, var);
        proof {
            assert(self.map@ == oldmap.insert(key, var));
            assert(self.map@.map_values(|v: Variable| v.data@) =~= oldmap.map_values(
                |v: Variable| v.data@,
            ).insert(key, vdata));
        }
    }
}

/// Builds a dictionary from a list of entries, later entries overriding
/// earlier ones with the same address.
pub fn build_dictionary(content: &Vec<Variable>) -> (r: ObjectDictionary)
    ensures
        r.wf(),
        r@ == dict_of(content@),
{
    let mut od = ObjectDictionary::new();
    let n = content.len();
    proof {
        assert(content@.take(0) =~= Seq::<Variable>::empty());
    }
    for i in 0..n
        invariant
            n == content@.len(),
            od.wf(),
            od@ == dict_of(content@.take(i as int)),
    {
        od.set_variable(content[i].duplicate());
        proof {
            assert(content@.take(i + 1).drop_last() =~= content@.take(i as int));
            assert(content@.take(i + 1).last() == content@[i as int]);
        }
    }
    proof {
        assert(content@.take(n as int) =~= content@);
    }
    od
}

} // verus!
