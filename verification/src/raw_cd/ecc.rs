//! The error correction of a sector: two interleaved Reed-Solomon codes over the
//! field of 256 elements.
use vstd::prelude::*;
use vstd::slice::slice_subrange;

use crate::bytes::{append_bytes, put, put_bytes, same_bytes};

verus! {

/// The double of an element of the field.
pub open spec fn double(value: u8) -> u8 {
    if value & 0x80 != 0 {
        ((value & 0x7f) << 1) ^ 0x1d
    } else {
        (value & 0x7f) << 1
    }
}

/// The element whose sum with its own double is given: a third of it. Each bit
/// contributes its own third.
pub open spec fn third(value: u8) -> u8 {
    (if value & 1 != 0 { 0xf4u8 } else { 0u8 })
        ^ (if value & 2 != 0 { 0xf5u8 } else { 0u8 })
        ^ (if value & 4 != 0 { 0xf7u8 } else { 0u8 })
        ^ (if value & 8 != 0 { 0xf3u8 } else { 0u8 })
        ^ (if value & 16 != 0 { 0xfbu8 } else { 0u8 })
        ^ (if value & 32 != 0 { 0xebu8 } else { 0u8 })
        ^ (if value & 64 != 0 { 0xcbu8 } else { 0u8 })
        ^ (if value & 128 != 0 { 0x8bu8 } else { 0u8 })
}

/// A third is one: its sum with its double is the element.
pub proof fn third_is_inverse(value: u8)
    ensures
        third(value) ^ double(third(value)) == value,
{
    assert(third(value) ^ double(third(value)) == value) by (bit_vector);
}

/// An element is the third of its sum with its double, and of nothing else.
pub proof fn third_is_unique(value: u8)
    ensures
        third(value ^ double(value)) == value,
{
    assert(third(value ^ double(value)) == value) by (bit_vector);
}

/// Doubling distributes over sums.
pub proof fn double_is_linear(left: u8, right: u8)
    ensures
        double(left ^ right) == double(left) ^ double(right),
{
    assert(double(left ^ right) == double(left) ^ double(right)) by (bit_vector);
}

/// The doubles and thirds of all elements.
pub struct EccTables {
    pub forward: [u8; 256],
    pub backward: [u8; 256],
}

impl EccTables {
    /// The tables hold the double and the third of every element.
    pub open spec fn valid(&self) -> bool {
        &&& forall|value: u8| #[trigger] self.forward@[value as int] == double(value)
        &&& forall|value: u8| #[trigger] self.backward@[value as int] == third(value)
    }
}

fn doubled(value: u8) -> (result: u8)
    ensures
        result == double(value),
{
    let shifted: u8 = (value & 0x7f) << 1;
    if value & 0x80 != 0 {
        shifted ^ 0x1d
    } else {
        shifted
    }
}

/// Makes the tables of doubles and thirds.
pub fn make_ecc_tables() -> (tables: EccTables)
    ensures
        tables.valid(),
{
    let mut forward: [u8; 256] = [0u8; 256];
    let mut backward: [u8; 256] = [0u8; 256];
    let mut index: usize = 0;
    while index < 256
        invariant
            index <= 256,
            forall|value: u8| value < index ==> #[trigger] forward@[value as int] == double(value),
            forall|value: u8|
                value < index ==> backward@[(value ^ #[trigger] double(value)) as int] == value,
        decreases 256 - index,
    {
        let element: u8 = index as u8;
        let next: u8 = doubled(element);
        let sum: u8 = element ^ next;
        let ghost before = backward@;
        forward[index] = next;
        backward[sum as usize] = element;
        proof {
            third_is_unique(element);
            assert forall|value: u8| value < index + 1 implies backward@[(value
                ^ #[trigger] double(value)) as int] == value by {
                third_is_unique(value);
                if value < index {
                    assert((value ^ double(value)) != sum);
                    assert(before[(value ^ double(value)) as int] == value);
                }
            }
        }
        index = index + 1;
    }
    proof {
        assert forall|value: u8| #[trigger] backward@[value as int] == third(value) by {
            let root = third(value);
            third_is_inverse(value);
            assert(backward@[(root ^ double(root)) as int] == root);
        }
    }
    EccTables { forward, backward }
}

/// The shape of one of the two codes: how many codewords there are and how long
/// they are, and where the elements of a codeword stand.
#[derive(Clone, Copy)]
pub struct EccLayout {
    pub codewords: usize,
    pub length: usize,
    pub major: usize,
    pub minor: usize,
}

/// The first code.
pub open spec fn layout_p() -> EccLayout {
    EccLayout { codewords: 86, length: 24, major: 2, minor: 86 }
}

/// The second code.
pub open spec fn layout_q() -> EccLayout {
    EccLayout { codewords: 52, length: 43, major: 86, minor: 88 }
}

impl EccLayout {
    /// The number of elements that the code covers.
    pub open spec fn size(self) -> int {
        self.codewords * self.length
    }

    /// Where the element `step` of a codeword stands.
    pub open spec fn at(self, codeword: int, step: int) -> int {
        (codeword / 2 * self.major + codeword % 2 + step * self.minor) % self.size()
    }

    /// The layout is that of one of the two codes.
    pub open spec fn known(self) -> bool {
        self == layout_p() || self == layout_q()
    }
}

/// An element that a code covers: the address first, then the data.
pub open spec fn covered(address: Seq<u8>, data: Seq<u8>, index: int) -> u8 {
    if index < 4 {
        address[index]
    } else {
        data[index - 4]
    }
}

/// What the first `count` elements of a codeword weigh, and what their sum is.
pub open spec fn weighed(address: Seq<u8>, data: Seq<u8>, layout: EccLayout, codeword: int, count: int) -> (
    u8,
    u8,
)
    decreases count,
{
    if count <= 0 {
        (0, 0)
    } else {
        let (weight, sum) = weighed(address, data, layout, codeword, count - 1);
        let value = covered(address, data, layout.at(codeword, count - 1));
        (double(weight ^ value), sum ^ value)
    }
}

/// The two parity elements of a codeword.
pub open spec fn parity(address: Seq<u8>, data: Seq<u8>, layout: EccLayout, codeword: int) -> (u8, u8) {
    let (weight, sum) = weighed(address, data, layout, codeword, layout.length as int);
    let first = third(double(weight) ^ sum);
    (first, first ^ sum)
}

/// The parity of a code: the first elements of all codewords, then the second.
pub open spec fn ecc(address: Seq<u8>, data: Seq<u8>, layout: EccLayout) -> Seq<u8> {
    Seq::new(
        (layout.codewords * 2) as nat,
        |i: int|
            if i < layout.codewords {
                parity(address, data, layout, i).0
            } else {
                parity(address, data, layout, i - layout.codewords).1
            },
    )
}

/// Every codeword checks: with its two parity elements its elements sum up to
/// zero, and so do they when each weighs twice the next.
pub proof fn codeword_checks(address: Seq<u8>, data: Seq<u8>, layout: EccLayout, codeword: int)
    ensures
        ({
            let (weight, sum) = weighed(address, data, layout, codeword, layout.length as int);
            let (first, second) = parity(address, data, layout, codeword);
            sum ^ first ^ second == 0 && double(weight ^ first) ^ second == 0
        }),
{
    let (weight, sum) = weighed(address, data, layout, codeword, layout.length as int);
    let (first, second) = parity(address, data, layout, codeword);
    let doubled_weight = double(weight);
    let doubled_first = double(first);
    third_is_inverse(doubled_weight ^ sum);
    double_is_linear(weight, first);
    assert(sum ^ first ^ (first ^ sum) == 0) by (bit_vector);
    assert(doubled_weight ^ doubled_first ^ (first ^ sum) == 0) by (bit_vector)
        requires
            first ^ doubled_first == doubled_weight ^ sum,
    ;
}

fn generate_codeword(
    tables: &EccTables,
    address: &[u8; 4],
    data: &[u8],
    layout: EccLayout,
    codeword: usize,
) -> (pair: (u8, u8))
    requires
        tables.valid(),
        layout.known(),
        codeword < layout.codewords,
        data.len() == layout.size() - 4,
    ensures
        pair == parity(address@, data@, layout, codeword as int),
{
    proof {
        layout_facts(layout, codeword as int);
    }
    let size: usize = layout.codewords * layout.length;
    let mut index: usize = codeword / 2 * layout.major + codeword % 2;
    let mut weight: u8 = 0;
    let mut sum: u8 = 0;
    let mut step: usize = 0;
    assert(layout.at(codeword as int, 0) == index) by {
        assert(index < size);
        assert(0 * layout.minor == 0) by (nonlinear_arith);
        vstd::arithmetic::div_mod::lemma_small_mod(index as nat, size as nat);
    }
    while step < layout.length
        invariant
            step <= layout.length,
            tables.valid(),
            layout.known(),
            codeword < layout.codewords,
            data.len() == layout.size() - 4,
            size == layout.size(),
            size == 2064 || size == 2236,
            layout.minor <= 88,
            index < size,
            index == layout.at(codeword as int, step as int),
            (weight, sum) == weighed(address@, data@, layout, codeword as int, step as int),
        decreases layout.length - step,
    {
        let value: u8 = if index < 4 {
            address[index]
        } else {
            data[index - 4]
        };
        sum = sum ^ value;
        weight = tables.forward[(weight ^ value) as usize];
        proof {
            layout_steps(layout, codeword as int, step as int);
            let next = index + layout.minor;
            if next < size {
                vstd::arithmetic::div_mod::lemma_small_mod(next as nat, size as nat);
            } else {
                vstd::arithmetic::div_mod::lemma_small_mod((next - size) as nat, size as nat);
                vstd::arithmetic::div_mod::lemma_mod_sub_multiples_vanish(next, size as int);
            }
        }
        index = index + layout.minor;
        if index >= size {
            index = index - size;
        }
        step = step + 1;
    }
    let first: u8 = tables.backward[(tables.forward[weight as usize] ^ sum) as usize];
    (first, first ^ sum)
}

/// The next element of a codeword stands one step further round.
proof fn layout_steps(layout: EccLayout, codeword: int, step: int)
    requires
        layout.known(),
        0 <= codeword < layout.codewords,
        0 <= step,
    ensures
        layout.at(codeword, step + 1) == (layout.at(codeword, step) + layout.minor)
            % layout.size(),
{
    layout_facts(layout, codeword);
    let size = layout.size();
    let minor = layout.minor as int;
    let place = codeword / 2 * layout.major + codeword % 2 + step * minor;
    assert((step + 1) * minor == step * minor + minor) by (nonlinear_arith);
    vstd::arithmetic::div_mod::lemma_add_mod_noop(place, minor, size);
    vstd::arithmetic::div_mod::lemma_small_mod(minor as nat, size as nat);
}

/// The sizes of the two codes.
proof fn layout_facts(layout: EccLayout, codeword: int)
    requires
        layout.known(),
        0 <= codeword < layout.codewords,
    ensures
        layout.size() == 2064 || layout.size() == 2236,
        0 <= codeword / 2 * layout.major + codeword % 2 < layout.size(),
        0 <= codeword / 2 * layout.major <= 2236,
        layout.minor <= 88,
{
    if layout == layout_p() {
        assert(layout.size() == 2064);
        assert(codeword / 2 * layout.major == codeword / 2 * 2);
    } else {
        assert(layout.size() == 2236);
        assert(codeword / 2 * layout.major == codeword / 2 * 86);
    }
}

fn generate_ecc(tables: &EccTables, address: &[u8; 4], data: &[u8], layout: EccLayout) -> (parity_bytes: Vec<
    u8,
>)
    requires
        tables.valid(),
        layout.known(),
        data.len() == layout.size() - 4,
    ensures
        parity_bytes@ == ecc(address@, data@, layout),
{
    let ghost all = ecc(address@, data@, layout);
    let mut first: Vec<u8> = Vec::new();
    let mut second: Vec<u8> = Vec::new();
    let mut codeword: usize = 0;
    while codeword < layout.codewords
        invariant
            codeword <= layout.codewords,
            tables.valid(),
            layout.known(),
            data.len() == layout.size() - 4,
            first.len() == codeword,
            second.len() == codeword,
            forall|i: int|
                0 <= i < codeword ==> (first@[i], second@[i]) == #[trigger] parity(
                    address@,
                    data@,
                    layout,
                    i,
                ),
        decreases layout.codewords - codeword,
    {
        let (left, right) = generate_codeword(tables, address, data, layout, codeword);
        first.push(left);
        second.push(right);
        codeword = codeword + 1;
    }
    let ghost left_half = first@;
    let mut parity_bytes: Vec<u8> = first;
    append_bytes(&mut parity_bytes, second.as_slice());
    proof {
        assert forall|i: int| 0 <= i < all.len() implies parity_bytes@[i] == all[i] by {
            if i < layout.codewords {
                assert(parity_bytes@[i] == left_half[i]);
                assert(parity(address@, data@, layout, i).0 == left_half[i]);
            } else {
                let k = i - layout.codewords;
                assert(parity_bytes@[i] == second@[k]);
                assert(parity(address@, data@, layout, k).1 == second@[k]);
            }
        }
        assert(parity_bytes@ =~= all);
    }
    parity_bytes
}

/// The parity of the first code over a sector.
pub open spec fn sector_p(sector: Seq<u8>, address: Seq<u8>) -> Seq<u8> {
    ecc(address, sector.subrange(16, 2076), layout_p())
}

/// The parity of the second code over a sector, which covers the first.
pub open spec fn sector_q(sector: Seq<u8>, address: Seq<u8>) -> Seq<u8> {
    ecc(address, sector.subrange(16, 2248), layout_q())
}

/// A sector with its error correction.
pub open spec fn with_ecc(sector: Seq<u8>, address: Seq<u8>) -> Seq<u8> {
    let first = put(sector, 2076, sector_p(sector, address));
    put(first, 2248, sector_q(first, address))
}

/// The error correction of a sector is right.
pub open spec fn ecc_holds(sector: Seq<u8>, address: Seq<u8>) -> bool {
    &&& sector.subrange(2076, 2248) == sector_p(sector, address)
    &&& sector.subrange(2248, 2352) == sector_q(sector, address)
}

fn make_p(tables: &EccTables, sector: &[u8], address: &[u8; 4]) -> (bytes: Vec<u8>)
    requires
        tables.valid(),
        sector.len() == 2352,
    ensures
        bytes@ == sector_p(sector@, address@),
{
    let layout = EccLayout { codewords: 86, length: 24, major: 2, minor: 86 };
    generate_ecc(tables, address, slice_subrange(sector, 16, 2076), layout)
}

fn make_q(tables: &EccTables, sector: &[u8], address: &[u8; 4]) -> (bytes: Vec<u8>)
    requires
        tables.valid(),
        sector.len() == 2352,
    ensures
        bytes@ == sector_q(sector@, address@),
{
    let layout = EccLayout { codewords: 52, length: 43, major: 86, minor: 88 };
    generate_ecc(tables, address, slice_subrange(sector, 16, 2248), layout)
}

/// Writes the error correction of a sector.
pub fn write_ecc(sector: &mut Vec<u8>, address: [u8; 4])
    requires
        old(sector).len() == 2352,
    ensures
        final(sector)@ == with_ecc(old(sector)@, address@),
        final(sector).len() == 2352,
{
    let tables: EccTables = make_ecc_tables();
    let first: Vec<u8> = make_p(&tables, sector.as_slice(), &address);
    put_bytes(sector, 2076, first.as_slice());
    let second: Vec<u8> = make_q(&tables, sector.as_slice(), &address);
    put_bytes(sector, 2248, second.as_slice());
}

/// Tells whether the error correction of a sector is right.
pub fn ecc_matches(sector: &[u8], address: [u8; 4]) -> (holds: bool)
    requires
        sector.len() == 2352,
    ensures
        holds == ecc_holds(sector@, address@),
{
    let tables: EccTables = make_ecc_tables();
    let first: Vec<u8> = make_p(&tables, sector, &address);
    if !same_bytes(first.as_slice(), slice_subrange(sector, 2076, 2248)) {
        return false;
    }
    let second: Vec<u8> = make_q(&tables, sector, &address);
    same_bytes(second.as_slice(), slice_subrange(sector, 2248, 2352))
}

/// The error correction that is written is right, and nothing else changes.
pub proof fn written_ecc_holds(sector: Seq<u8>, address: Seq<u8>)
    requires
        sector.len() == 2352,
    ensures
        ecc_holds(with_ecc(sector, address), address),
        with_ecc(sector, address).len() == 2352,
        with_ecc(sector, address).take(2076) == sector.take(2076),
{
    let first = put(sector, 2076, sector_p(sector, address));
    let whole = with_ecc(sector, address);
    assert(whole.subrange(16, 2076) =~= sector.subrange(16, 2076));
    assert(whole.subrange(16, 2248) =~= first.subrange(16, 2248));
    assert(whole.subrange(2076, 2248) =~= sector_p(sector, address));
    assert(whole.subrange(2248, 2352) =~= sector_q(first, address));
    assert(whole.take(2076) =~= sector.take(2076));
}

} // verus!
