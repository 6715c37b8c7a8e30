//! Addresses of devices on the PCI bus.

use vstd::prelude::*;

use crate::number;
use crate::sorted_map::MapKey;
use crate::text;

verus! {

/// The address of a PCI device, written `dddd:bb:nn.f` in hexadecimal.
#[derive(Debug, Clone, Copy, PartialEq, Eq, PartialOrd, Ord, Hash, Structural)]
pub struct PciSlot {
    pub domain: u32,
    pub bus: u8,
    pub number: u8,
    pub function: u8,
}

/// The text is no PCI address.
#[derive(Debug, Clone, Copy, PartialEq, Eq, Structural)]
pub struct PciSlotError;

/// The text of a number with at least `width` hexadecimal digits.
pub open spec fn hex_field(n: int, width: int) -> Seq<char> {
    number::pad_zeros(number::number_text(n, 16), width)
}

/// How an address is written.
pub open spec fn slot_text(slot: PciSlot) -> Seq<char> {
    hex_field(slot.domain as int, 4) + seq![':'] + (hex_field(slot.bus as int, 2) + seq![':'] + (
    hex_field(slot.number as int, 2) + seq!['.'] + hex_field(slot.function as int, 1)))
}

/// The address that a text denotes: four hexadecimal numbers, with a colon
/// behind the first and the second and a full stop behind the third.
pub open spec fn parse_slot(s: Seq<char>) -> Option<PciSlot> {
    match text::split_once(s, ':') {
        None => None,
        Some((domain, rest)) => match text::split_once(rest, ':') {
            None => None,
            Some((bus, tail)) => match text::split_once(tail, '.') {
                None => None,
                Some((number, function)) => match (
                    number::parse_unsigned(domain, 16, u32::MAX as int),
                    number::parse_unsigned(bus, 16, 255),
                    number::parse_unsigned(number, 16, 255),
                    number::parse_unsigned(function, 16, 255),
                ) {
                    (Some(d), Some(b), Some(n), Some(f)) => Some(
                        PciSlot {
                            domain: d as u32,
                            bus: b as u8,
                            number: n as u8,
                            function: f as u8,
                        },
                    ),
                    _ => None,
                },
            },
        },
    }
}

fn hex_byte(s: &Vec<char>) -> (r: Option<u8>)
    ensures
        match r {
            Some(v) => number::parse_unsigned(s@, 16, 255) == Some(v as int),
            None => number::parse_unsigned(s@, 16, 255) is None,
        },
{
    match number::parse_u32_chars(s, 16) {
        Some(v) => if v <= 255 {
            Some(v as u8)
        } else {
            None
        },
        None => None,
    }
}

impl PciSlot {
    /// Reads an address.
    pub fn from_str(s: &str) -> (r: Result<Self, PciSlotError>)
        ensures
            match r {
                Ok(slot) => parse_slot(s@) == Some(slot),
                Err(_) => parse_slot(s@) is None,
            },
    {
        let chars: Vec<char> = text::to_chars(s);
        let Some((domain, rest)) = text::split_once_chars(&chars, ':') else {
            return Err(PciSlotError);
        };
        let Some((bus, tail)) = text::split_once_chars(&rest, ':') else {
            return Err(PciSlotError);
        };
        let Some((number, function)) = text::split_once_chars(&tail, '.') else {
            return Err(PciSlotError);
        };
        match (
            number::parse_u32_chars(&domain, 16),
            hex_byte(&bus),
            hex_byte(&number),
            hex_byte(&function),
        ) {
            (Some(d), Some(b), Some(n), Some(f)) => Ok(
                PciSlot { domain: d, bus: b, number: n, function: f },
            ),
            _ => Err(PciSlotError),
        }
    }

    /// Writes the address.
    pub fn to_string(&self) -> (r: String)
        ensures
            r@ == slot_text(*self),
    {
        let mut tail: Vec<char> = number::hex_padded(self.number as u64, 2);
        tail.push('.');
        text::append_chars(&mut tail, &number::hex_padded(self.function as u64, 1));
        let mut rest: Vec<char> = number::hex_padded(self.bus as u64, 2);
        rest.push(':');
        text::append_chars(&mut rest, &tail);
        let mut all: Vec<char> = number::hex_padded(self.domain as u64, 4);
        all.push(':');
        text::append_chars(&mut all, &rest);
        proof {
            assert(tail@ =~= hex_field(self.number as int, 2) + seq!['.'] + hex_field(
                self.function as int,
                1,
            ));
            assert(rest@ =~= hex_field(self.bus as int, 2) + seq![':'] + tail@);
            assert(all@ =~= slot_text(*self));
        }
        text::to_text(&all)
    }
}

/// The address with all parts zero.
pub open spec fn zero_slot() -> PciSlot {
    PciSlot { domain: 0, bus: 0, number: 0, function: 0 }
}

impl Default for PciSlot {
    fn default() -> (r: Self)
        ensures
            r == zero_slot(),
    {
        PciSlot { domain: 0, bus: 0, number: 0, function: 0 }
    }
}

impl MapKey for PciSlot {
    open spec fn rank(self) -> int {
        self.domain * 0x100_0000 + self.bus * 0x1_0000 + self.number * 0x100 + self.function
    }

    fn rank_of(&self) -> (r: u128) {
        self.domain as u128 * 0x100_0000 + self.bus as u128 * 0x1_0000 + self.number as u128 * 0x100
            + self.function as u128
    }

    proof fn rank_distinct(a: PciSlot, b: PciSlot) {
        let low_a = a.number * 0x100 + a.function;
        let low_b = b.number * 0x100 + b.function;
        assert(0 <= low_a < 0x1_0000 && 0 <= low_b < 0x1_0000);
        assert(a.domain * 0x100 + a.bus == b.domain * 0x100 + b.bus);
        assert(low_a == low_b);
    }
}

proof fn lemma_hex_field(n: int, width: int, max: int)
    requires
        0 <= n <= max,
    ensures
        number::parse_unsigned(hex_field(n, width), 16, max) == Some(n),
        forall|i: int|
            0 <= i < hex_field(n, width).len() ==> hex_field(n, width)[i] != ':' && hex_field(
                n,
                width,
            )[i] != '.',
{
    number::number_round_trip(n, 16, width, max);
    number::lemma_number_text(n, 16);
    number::lemma_pad_zeros(number::number_text(n, 16), 16, width);
    let s = hex_field(n, width);
    assert forall|i: int| 0 <= i < s.len() implies s[i] != ':' && s[i] != '.' by {
        assert(number::digit(s[i], 16) is Some);
    }
}

/// An address that was written is read back as the same address.
pub proof fn slot_round_trip(slot: PciSlot)
    ensures
        parse_slot(slot_text(slot)) == Some(slot),
{
    let domain = hex_field(slot.domain as int, 4);
    let bus = hex_field(slot.bus as int, 2);
    let number = hex_field(slot.number as int, 2);
    let function = hex_field(slot.function as int, 1);
    lemma_hex_field(slot.domain as int, 4, u32::MAX as int);
    lemma_hex_field(slot.bus as int, 2, 255);
    lemma_hex_field(slot.number as int, 2, 255);
    lemma_hex_field(slot.function as int, 1, 255);
    let tail = number + seq!['.'] + function;
    let rest = bus + seq![':'] + tail;
    text::lemma_split_once_joined(domain, ':', rest);
    text::lemma_split_once_joined(bus, ':', tail);
    text::lemma_split_once_joined(number, '.', function);
}

/// An address is read from four hexadecimal numbers: the domain, the bus, the number of the
/// device and its function.
pub proof fn address_is_four_numbers(
    domain: Seq<char>,
    bus: Seq<char>,
    number: Seq<char>,
    function: Seq<char>,
)
    requires
        forall|i: int| 0 <= i < domain.len() ==> domain[i] != ':',
        forall|i: int| 0 <= i < bus.len() ==> bus[i] != ':',
        forall|i: int| 0 <= i < number.len() ==> number[i] != '.',
    ensures
        parse_slot(domain + seq![':'] + (bus + seq![':'] + (number + seq!['.'] + function))) is Some
            <==> number::parse_unsigned(domain, 16, u32::MAX as int) is Some
            && number::parse_unsigned(bus, 16, 255) is Some && number::parse_unsigned(
            number,
            16,
            255,
        ) is Some && number::parse_unsigned(function, 16, 255) is Some,
        parse_slot(domain + seq![':'] + (bus + seq![':'] + (number + seq!['.'] + function)))
            matches Some(slot) ==> {
            &&& number::parse_unsigned(domain, 16, u32::MAX as int) == Some(slot.domain as int)
            &&& number::parse_unsigned(bus, 16, 255) == Some(slot.bus as int)
            &&& number::parse_unsigned(number, 16, 255) == Some(slot.number as int)
            &&& number::parse_unsigned(function, 16, 255) == Some(slot.function as int)
        },
{
    let tail = number + seq!['.'] + function;
    let rest = bus + seq![':'] + tail;
    text::lemma_split_once_joined(domain, ':', rest);
    text::lemma_split_once_joined(bus, ':', tail);
    text::lemma_split_once_joined(number, '.', function);
    number::number_is_within_bounds(domain, 16, 0, u32::MAX as int, u32::MAX as int);
    number::number_is_within_bounds(bus, 16, 0, 255, 255);
    number::number_is_within_bounds(number, 16, 0, 255, 255);
    number::number_is_within_bounds(function, 16, 0, 255, 255);
}

/// Two addresses never have the same text.
pub proof fn addresses_differ_in_text(a: PciSlot, b: PciSlot)
    requires
        slot_text(a) == slot_text(b),
    ensures
        a == b,
{
    slot_round_trip(a);
    slot_round_trip(b);
}

} // verus!
