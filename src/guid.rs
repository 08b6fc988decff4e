use crate::{
    from_le16, from_le32, le16, le32, lemma_from_le16_of_value, lemma_from_le32_of_value,
    lemma_le16_of_bytes, lemma_le32_of_bytes, serialize_u16, serialize_u32, u16_from_le,
    u32_from_le,
};
use std::str::FromStr;
use vstd::prelude::*;

verus! {

/// EFI globally unique identifier, held as its fields.
///
/// See UEFI "Appendix A - GUID and Time Formats": the
/// three leading fields are stored little-endian on the wire, the rest byte
/// by byte.
#[derive(Debug, Clone, Copy)]
pub struct Guid {
    pub time_low: u32,
    pub time_mid: u16,
    pub time_high_and_version: u16,
    pub clock_seq_high_and_reserved: u8,
    pub clock_seq_low: u8,
    pub node: [u8; 6],
}

/// Why a textual identifier was refused, with the character index at fault.
#[derive(Debug, Clone, Copy, PartialEq, Eq, Structural)]
pub enum ParseError {
    /// The text is not 36 characters long; the index is where it departs
    /// from that length (its own length when short, 36 when long).
    IncorrectLength(usize),
    /// A hyphen is expected at this index.
    MissingDash(usize),
    /// A hexadecimal digit is expected at this index.
    InvalidHex(usize),
}

/// Length of the canonical text form `xxxxxxxx-xxxx-xxxx-xxxx-xxxxxxxxxxxx`.
pub const TEXT_LEN: usize = 36;

pub open spec fn is_dash_index(i: int) -> bool {
    i == 8 || i == 13 || i == 18 || i == 23
}

pub open spec fn is_hex_digit(c: char) -> bool {
    ('0' <= c && c <= '9') || ('a' <= c && c <= 'f') || ('A' <= c && c <= 'F')
}

pub open spec fn hex_value(c: char) -> int {
    if '0' <= c && c <= '9' {
        c as int - '0' as int
    } else if 'a' <= c && c <= 'f' {
        c as int - 'a' as int + 10
    } else {
        c as int - 'A' as int + 10
    }
}

/// Whether the character at `i` is what the canonical form has there.
pub open spec fn char_fits(s: Seq<char>, i: int) -> bool {
    if is_dash_index(i) {
        s[i] == '-'
    } else {
        is_hex_digit(s[i])
    }
}

pub open spec fn char_error(i: int) -> ParseError {
    if is_dash_index(i) {
        ParseError::MissingDash(i as usize)
    } else {
        ParseError::InvalidHex(i as usize)
    }
}

/// The first fault of `s` at or after index `i`: the characters are checked
/// in order up to the expected length, then the length itself.
pub open spec fn text_error_from(s: Seq<char>, i: nat) -> Option<ParseError>
    decreases 36 - i,
{
    if i >= 36 || i >= s.len() {
        if s.len() == 36 {
            None
        } else if s.len() < 36 {
            Some(ParseError::IncorrectLength(s.len() as usize))
        } else {
            Some(ParseError::IncorrectLength(36))
        }
    } else if !char_fits(s, i as int) {
        Some(char_error(i as int))
    } else {
        text_error_from(s, i + 1)
    }
}

/// The first fault of `s` as a textual identifier, if any.
pub open spec fn text_error(s: Seq<char>) -> Option<ParseError> {
    text_error_from(s, 0)
}

/// The byte spelled by the two hex digits at `p` and `p + 1`.
pub open spec fn text_byte(s: Seq<char>, p: int) -> u8 {
    (hex_value(s[p]) * 16 + hex_value(s[p + 1])) as u8
}

/// Index in the text of the first digit of byte `k`.
pub open spec fn digit_index(k: int) -> int {
    if k < 4 {
        2 * k
    } else if k < 6 {
        9 + 2 * (k - 4)
    } else if k < 8 {
        14 + 2 * (k - 6)
    } else if k < 10 {
        19 + 2 * (k - 8)
    } else {
        24 + 2 * (k - 10)
    }
}

/// The sixteen bytes that the text's digit pairs spell, in order.
pub open spec fn text_bytes(s: Seq<char>) -> Seq<u8> {
    Seq::new(16, |k: int| text_byte(s, digit_index(k)))
}

fn is_hex_char(c: char) -> (r: bool)
    ensures
        r == is_hex_digit(c),
{
    ('0' <= c && c <= '9') || ('a' <= c && c <= 'f') || ('A' <= c && c <= 'F')
}

fn hex_digit_value(c: char) -> (r: u8)
    requires
        is_hex_digit(c),
    ensures
        r as int == hex_value(c),
        r < 16,
{
    if '0' <= c && c <= '9' {
        (c as u32 - '0' as u32) as u8
    } else if 'a' <= c && c <= 'f' {
        (c as u32 - 'a' as u32 + 10) as u8
    } else {
        (c as u32 - 'A' as u32 + 10) as u8
    }
}

/// Reads the byte spelled by the digits at `p` and `p + 1`.
fn byte_at(s: &str, p: usize) -> (r: u8)
    requires
        p + 1 < s@.len() <= 36,
        is_hex_digit(s@[p as int]),
        is_hex_digit(s@[p + 1]),
    ensures
        r == text_byte(s@, p as int),
{
    let hi = hex_digit_value(s.get_char(p));
    let lo = hex_digit_value(s.get_char(p + 1));
    hi * 16 + lo
}

/// Where no fault lies at or after `i`, every character from `i` on fits.
proof fn lemma_fits_after(s: Seq<char>, i: nat)
    requires
        i <= 36,
        text_error_from(s, i) is None,
    ensures
        s.len() == 36,
        forall|j: int| i <= j < 36 ==> char_fits(s, j),
        forall|j: int| i <= j < 36 && !is_dash_index(j) ==> is_hex_digit(#[trigger] s[j]),
    decreases 36 - i,
{
    if i < 36 && i < s.len() {
        lemma_fits_after(s, i + 1);
    }
    assert forall|j: int| i <= j < 36 && !is_dash_index(j) implies is_hex_digit(#[trigger] s[j]) by {
        assert(char_fits(s, j));
    }
}

impl Guid {
    /// The sixteen bytes that stand for this identifier on the wire.
    pub open spec fn spec_bytes(self) -> Seq<u8> {
        le32(self.time_low) + le16(self.time_mid) + le16(self.time_high_and_version) + seq![
            self.clock_seq_high_and_reserved,
            self.clock_seq_low,
        ] + self.node@
    }

    /// The fields are those that the text spells, each read from its
    /// bytes as they stand on the wire.
    pub open spec fn decoded_from(self, s: Seq<char>) -> bool {
        &&& self.time_low == from_le32(
            text_byte(s, 0),
            text_byte(s, 2),
            text_byte(s, 4),
            text_byte(s, 6),
        )
        &&& self.time_mid == from_le16(text_byte(s, 9), text_byte(s, 11))
        &&& self.time_high_and_version == from_le16(text_byte(s, 14), text_byte(s, 16))
        &&& self.clock_seq_high_and_reserved == text_byte(s, 19)
        &&& self.clock_seq_low == text_byte(s, 21)
        &&& self.node@ == Seq::new(6, |k: int| text_byte(s, 24 + 2 * k))
    }

    pub fn from_fields(d1: u32, d2: u16, d3: u16, d4: &[u8; 8]) -> (r: Guid)
        ensures
            r.time_low == d1,
            r.time_mid == d2,
            r.time_high_and_version == d3,
            r.clock_seq_high_and_reserved == d4@[0],
            r.clock_seq_low == d4@[1],
            r.node@ == d4@.subrange(2, 8),
    {
        let node: [u8; 6] = [d4[2], d4[3], d4[4], d4[5], d4[6], d4[7]];
        assert(node@ =~= d4@.subrange(2, 8));
        Guid {
            time_low: d1,
            time_mid: d2,
            time_high_and_version: d3,
            clock_seq_high_and_reserved: d4[0],
            clock_seq_low: d4[1],
            node,
        }
    }

    /// The all-zero identifier.
    pub fn nil() -> (r: Guid)
        ensures
            r.spec_bytes() == Seq::new(16, |k: int| 0u8),
    {
        let r = Guid {
            time_low: 0,
            time_mid: 0,
            time_high_and_version: 0,
            clock_seq_high_and_reserved: 0,
            clock_seq_low: 0,
            node: [0u8; 6],
        };
        assert(r.spec_bytes() =~= Seq::new(16, |k: int| 0u8));
        r
    }

    /// Reads an identifier from its sixteen wire bytes.
    pub fn deserialize(input: &[u8]) -> (r: Option<Guid>)
        ensures
            match r {
                Some(g) => input@.len() == 16 && g.spec_bytes() == input@,
                None => input@.len() != 16,
            },
    {
        if input.len() != 16 {
            return None;
        }
        let node: [u8; 6] = [input[10], input[11], input[12], input[13], input[14], input[15]];
        let g = Guid {
            time_low: u32_from_le(input[0], input[1], input[2], input[3]),
            time_mid: u16_from_le(input[4], input[5]),
            time_high_and_version: u16_from_le(input[6], input[7]),
            clock_seq_high_and_reserved: input[8],
            clock_seq_low: input[9],
            node,
        };
        proof {
            lemma_le32_of_bytes(input@[0], input@[1], input@[2], input@[3]);
            lemma_le16_of_bytes(input@[4], input@[5]);
            lemma_le16_of_bytes(input@[6], input@[7]);
        }
        assert(g.spec_bytes() =~= input@);
        Some(g)
    }

    /// Appends the sixteen wire bytes of this identifier to `buf`.
    pub fn serialize(&self, buf: &mut Vec<u8>)
        ensures
            final(buf)@ == old(buf)@ + self.spec_bytes(),
    {
        serialize_u32(self.time_low, buf);
        serialize_u16(self.time_mid, buf);
        serialize_u16(self.time_high_and_version, buf);
        buf.push(self.clock_seq_high_and_reserved);
        buf.push(self.clock_seq_low);
        let ghost start = buf@;
        let mut k: usize = 0;
        while k < 6
            invariant
                0 <= k <= 6,
                buf@ == start + self.node@.subrange(0, k as int),
            decreases 6 - k,
        {
            buf.push(self.node[k]);
            k += 1;
            assert(buf@ =~= start + self.node@.subrange(0, k as int));
        }
        assert(self.node@.subrange(0, 6) =~= self.node@);
        assert(buf@ =~= old(buf)@ + self.spec_bytes());
    }

    /// Reads the canonical text form `xxxxxxxx-xxxx-xxxx-xxxx-xxxxxxxxxxxx`.
    ///
    /// The characters are checked in order, then the length; the first
    /// fault is reported with its index. The digit pairs spell the wire
    /// bytes, from which the fields are read.
    pub fn parse(s: &str) -> (r: Result<Guid, ParseError>)
        ensures
            match r {
                Ok(g) => text_error(s@) is None && g.decoded_from(s@),
                Err(e) => text_error(s@) == Some(e),
            },
    {
        let len = s.unicode_len();
        let limit: usize = if len < TEXT_LEN {
            len
        } else {
            TEXT_LEN
        };
        let mut i: usize = 0;
        while i < limit
            invariant
                0 <= i <= limit,
                limit == (if len < 36 { len } else { 36usize }),
                len == s@.len(),
                text_error(s@) == text_error_from(s@, i as nat),
            decreases limit - i,
        {
            let c = s.get_char(i);
            if i == 8 || i == 13 || i == 18 || i == 23 {
                if c != '-' {
                    return Err(ParseError::MissingDash(i));
                }
            } else if !is_hex_char(c) {
                return Err(ParseError::InvalidHex(i));
            }
            i += 1;
        }
        if len != TEXT_LEN {
            return Err(ParseError::IncorrectLength(limit));
        }
        proof {
            lemma_fits_after(s@, 0);
        }
        let b0 = byte_at(s, 0);
        let b1 = byte_at(s, 2);
        let b2 = byte_at(s, 4);
        let b3 = byte_at(s, 6);
        let b4 = byte_at(s, 9);
        let b5 = byte_at(s, 11);
        let b6 = byte_at(s, 14);
        let b7 = byte_at(s, 16);
        let node: [u8; 6] = [
            byte_at(s, 24),
            byte_at(s, 26),
            byte_at(s, 28),
            byte_at(s, 30),
            byte_at(s, 32),
            byte_at(s, 34),
        ];
        let g = Guid {
            time_low: u32_from_le(b0, b1, b2, b3),
            time_mid: u16_from_le(b4, b5),
            time_high_and_version: u16_from_le(b6, b7),
            clock_seq_high_and_reserved: byte_at(s, 19),
            clock_seq_low: byte_at(s, 21),
            node,
        };
        assert(g.node@ =~= Seq::new(6, |k: int| text_byte(s@, 24 + 2 * k)));
        Ok(g)
    }

    /// Number of bytes that `serialize` appends.
    pub fn serialized_size() -> (r: usize)
        ensures
            r == 16,
    {
        16
    }
}

impl PartialEq for Guid {
    fn eq(&self, o: &Guid) -> (r: bool) {
        if self.time_low != o.time_low || self.time_mid != o.time_mid
            || self.time_high_and_version != o.time_high_and_version
            || self.clock_seq_high_and_reserved != o.clock_seq_high_and_reserved
            || self.clock_seq_low != o.clock_seq_low {
            return false;
        }
        let mut k: usize = 0;
        while k < 6
            invariant
                0 <= k <= 6,
                forall|j: int| 0 <= j < k ==> self.node@[j] == o.node@[j],
            decreases 6 - k,
        {
            if self.node[k] != o.node[k] {
                return false;
            }
            k += 1;
        }
        assert(self.node@ =~= o.node@);
        true
    }
}

impl vstd::std_specs::cmp::PartialEqSpecImpl for Guid {
    open spec fn obeys_eq_spec() -> bool {
        true
    }

    open spec fn eq_spec(&self, o: &Guid) -> bool {
        &&& self.time_low == o.time_low
        &&& self.time_mid == o.time_mid
        &&& self.time_high_and_version == o.time_high_and_version
        &&& self.clock_seq_high_and_reserved == o.clock_seq_high_and_reserved
        &&& self.clock_seq_low == o.clock_seq_low
        &&& self.node@ == o.node@
    }
}

impl Eq for Guid {

}

impl FromStr for Guid {
    type Err = ParseError;

    /// Reads the canonical text form, as `Guid::parse` does.
    fn from_str(s: &str) -> (r: Result<Guid, ParseError>)
        ensures
            match r {
                Ok(g) => text_error(s@) is None && g.decoded_from(s@),
                Err(e) => text_error(s@) == Some(e),
            },
    {
        Guid::parse(s)
    }
}

/// Every identifier stands for exactly sixteen bytes on the wire.
pub proof fn lemma_wire_size(g: Guid)
    ensures
        g.spec_bytes().len() == 16,
{
}

/// Serializing the identifier parsed from valid text yields the bytes that
/// the text's digit pairs spell, in order.
pub proof fn lemma_parse_then_serialize(s: Seq<char>, g: Guid)
    requires
        text_error(s) is None,
        g.decoded_from(s),
    ensures
        g.spec_bytes() == text_bytes(s),
{
    lemma_le32_of_bytes(text_byte(s, 0), text_byte(s, 2), text_byte(s, 4), text_byte(s, 6));
    lemma_le16_of_bytes(text_byte(s, 9), text_byte(s, 11));
    lemma_le16_of_bytes(text_byte(s, 14), text_byte(s, 16));
    assert(g.spec_bytes() =~= text_bytes(s));
}

/// The wire bytes determine the identifier: reading back what `serialize`
/// wrote gives the identifier that was written.
pub proof fn lemma_wire_bytes_determine(g: Guid, h: Guid)
    requires
        g.spec_bytes() == h.spec_bytes(),
    ensures
        g == h,
{
    let b = g.spec_bytes();
    assert(le32(g.time_low) == b.subrange(0, 4));
    assert(le32(h.time_low) == b.subrange(0, 4));
    assert(le16(g.time_mid) == b.subrange(4, 6));
    assert(le16(h.time_mid) == b.subrange(4, 6));
    assert(le16(g.time_high_and_version) == b.subrange(6, 8));
    assert(le16(h.time_high_and_version) == b.subrange(6, 8));
    lemma_from_le32_of_value(g.time_low);
    lemma_from_le32_of_value(h.time_low);
    lemma_from_le16_of_value(g.time_mid);
    lemma_from_le16_of_value(h.time_mid);
    lemma_from_le16_of_value(g.time_high_and_version);
    lemma_from_le16_of_value(h.time_high_and_version);
    assert(g.node@ =~= b.subrange(10, 16));
    assert(h.node@ =~= b.subrange(10, 16));
    assert(g.time_low == h.time_low);
    assert(g.time_mid == h.time_mid);
    assert(g.time_high_and_version == h.time_high_and_version);
    assert(g.clock_seq_high_and_reserved == b[8]);
    assert(g.clock_seq_low == b[9]);
    assert(h.clock_seq_high_and_reserved == b[8]);
    assert(h.clock_seq_low == b[9]);
    broadcast use vstd::array::axiom_array_ext_equal;
    assert(g.node =~= h.node);
}

} // verus!
