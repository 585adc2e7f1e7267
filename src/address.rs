//! Bluetooth device addresses: six bytes, ordered as a big-endian number.
use vstd::prelude::*;

verus! {

/// Upper-case hexadecimal digit for a value below sixteen.
pub open spec fn hex_upper(n: u8) -> char {
    if n < 10 {
        (48 + n) as char
    } else {
        (55 + n) as char
    }
}

/// Two upper-case hexadecimal digits for one byte.
pub open spec fn byte_text(b: u8) -> Seq<char> {
    seq![hex_upper(b / 16), hex_upper(b % 16)]
}

/// The colon-delimited upper-case text of six bytes: `1F:2A:00:CC:22:F1`.
pub open spec fn address_text(a: Seq<u8>) -> Seq<char> {
    byte_text(a[0]) + seq![':'] + byte_text(a[1]) + seq![':'] + byte_text(a[2]) + seq![':']
        + byte_text(a[3]) + seq![':'] + byte_text(a[4]) + seq![':'] + byte_text(a[5])
}

/// The address read as a big-endian 48-bit number.
pub open spec fn address_key(a: Seq<u8>) -> int {
    a[0] * 0x100_0000_0000 + a[1] * 0x1_0000_0000 + a[2] * 0x100_0000 + a[3] * 0x1_0000
        + a[4] * 0x100 + a[5]
}

/// One upper-case hexadecimal digit as text.
fn hex_digit(n: u8) -> (r: &'static str)
    requires
        n < 16,
    ensures
        r@ == seq![hex_upper(n)],
{
    proof {
        reveal_strlit("0");
        reveal_strlit("1");
        reveal_strlit("2");
        reveal_strlit("3");
        reveal_strlit("4");
        reveal_strlit("5");
        reveal_strlit("6");
        reveal_strlit("7");
        reveal_strlit("8");
        reveal_strlit("9");
        reveal_strlit("A");
        reveal_strlit("B");
        reveal_strlit("C");
        reveal_strlit("D");
        reveal_strlit("E");
        reveal_strlit("F");
    }
    if n == 0 {
        "0"
    } else if n == 1 {
        "1"
    } else if n == 2 {
        "2"
    } else if n == 3 {
        "3"
    } else if n == 4 {
        "4"
    } else if n == 5 {
        "5"
    } else if n == 6 {
        "6"
    } else if n == 7 {
        "7"
    } else if n == 8 {
        "8"
    } else if n == 9 {
        "9"
    } else if n == 10 {
        "A"
    } else if n == 11 {
        "B"
    } else if n == 12 {
        "C"
    } else if n == 13 {
        "D"
    } else if n == 14 {
        "E"
    } else {
        "F"
    }
}

/// A peripheral's Bluetooth address.
#[derive(Debug, Clone, Copy, PartialEq, Eq, PartialOrd, Ord, Hash, Default)]
pub struct BleAddress {
    pub address: [u8; 6],
}

/// Returned where a text is not a colon-delimited Bluetooth address.
#[derive(Debug, Clone, Copy)]
pub struct ParseBleAddressError;

impl BleAddress {
    /// The address as a number: the order of keys is the byte-wise order of
    /// addresses.
    pub open spec fn key(self) -> int {
        address_key(self.address@)
    }

    /// The key, computed.
    pub fn key_u64(&self) -> (r: u64)
        ensures
            r == self.key(),
            r < 0x1_0000_0000_0000,
    {
        let a = &self.address;
        (a[0] as u64) * 0x100_0000_0000 + (a[1] as u64) * 0x1_0000_0000 + (a[2] as u64)
            * 0x100_0000 + (a[3] as u64) * 0x1_0000 + (a[4] as u64) * 0x100 + (a[5] as u64)
    }

    /// Whether two addresses are the same.
    pub fn same_as(&self, other: &BleAddress) -> (r: bool)
        ensures
            r == (self.key() == other.key()),
    {
        self.key_u64() == other.key_u64()
    }

    /// The address as six colon-delimited pairs of upper-case hexadecimal
    /// digits, most significant byte first.
    pub fn to_string(&self) -> (r: String)
        ensures
            r@ == address_text(self.address@),
    {
        let mut text = String::new();
        let mut i: usize = 0;
        while i < 6
            invariant
                i <= 6,
                i == 0 ==> text@.len() == 0,
                i > 0 ==> text@ =~= address_text(self.address@).subrange(0, 3 * i - 1),
            decreases 6 - i,
        {
            if i > 0 {
                proof {
                    reveal_strlit(":");
                }
                text.append(":");
            }
            let b = self.address[i];
            text.append(hex_digit(b / 16));
            text.append(hex_digit(b % 16));
            i = i + 1;
        }
        text
    }
}

} // verus!
