use vstd::prelude::*;

verus! {

/// Four-bit values packed two per byte: even indices in the low nibble,
/// odd indices in the high nibble.
#[derive(Debug, Clone, PartialEq)]
pub struct NibbleArray {
    data: Vec<u8>,
}

/// The nibble at `index` of the packed bytes `data`.
pub open spec fn nibble_at(data: Seq<u8>, index: int) -> u8 {
    if index % 2 == 0 {
        (data[index / 2] % 16) as u8
    } else {
        (data[index / 2] / 16) as u8
    }
}

/// `byte` with the nibble selected by `index` replaced by the low four bits
/// of `value`.
pub open spec fn with_nibble(byte: u8, index: int, value: u8) -> u8 {
    if index % 2 == 0 {
        ((byte / 16) * 16 + value % 16) as u8
    } else {
        (byte % 16 + (value % 16) * 16) as u8
    }
}

impl View for NibbleArray {
    type V = Seq<u8>;

    closed spec fn view(&self) -> Seq<u8> {
        self.data@
    }
}

impl NibbleArray {
    pub fn from_bytes(data: Vec<u8>) -> (r: NibbleArray)
        ensures
            r@ == data@,
    {
        NibbleArray { data }
    }

    pub fn get(&self, index: usize) -> (r: u8)
        requires
            index / 2 < self@.len(),
        ensures
            r == nibble_at(self@, index as int),
    {
        let byte = self.data[index / 2];
        if index % 2 == 0 {
            byte % 16
        } else {
            byte / 16
        }
    }

    pub fn set(&mut self, index: usize, value: u8)
        requires
            index / 2 < old(self)@.len(),
        ensures
            final(self)@ == old(self)@.update(
                (index / 2) as int,
                with_nibble(old(self)@[(index / 2) as int], index as int, value),
            ),
    {
        let byte = self.data[index / 2];
        let new_byte: u8 = if index % 2 == 0 {
            (byte / 16) * 16 + value % 16
        } else {
            byte % 16 + (value % 16) * 16
        };
        self.data.set(index / 2, new_byte);
    }

    /// The number of nibbles held.
    pub fn size(&self) -> (r: usize)
        requires
            self@.len() * 2 <= usize::MAX,
        ensures
            r == self@.len() * 2,
    {
        self.data.len() * 2
    }
}

} // verus!
