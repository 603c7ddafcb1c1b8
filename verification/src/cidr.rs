//! Exact arithmetic on address blocks.
//!
//! A block is the interval of addresses that share its prefix. Coverage and subtraction are
//! stated over the addresses themselves, so a split route table can be compared with the request
//! it came from address by address.

use vstd::arithmetic::power2::{
    lemma_pow2, lemma_pow2_adds, lemma_pow2_pos, lemma_pow2_strictly_increases, lemma_pow2_unfold,
    pow2,
};
use vstd::bits::lemma_u128_shr_is_div;
use vstd::prelude::*;

verus! {

/// An IP address as a number of its family.
#[derive(Debug, Clone, Copy, PartialEq, Eq, Structural)]
pub enum IpAddress {
    V4(u32),
    V6(u128),
}

impl IpAddress {
    pub open spec fn width(self) -> u8 {
        match self {
            IpAddress::V4(_) => 32,
            IpAddress::V6(_) => 128,
        }
    }

    pub open spec fn number(self) -> int {
        match self {
            IpAddress::V4(value) => value as int,
            IpAddress::V6(value) => value as int,
        }
    }

    pub fn is_ipv4(self) -> (is: bool)
        ensures
            is == (self is V4),
    {
        match self {
            IpAddress::V4(_) => true,
            IpAddress::V6(_) => false,
        }
    }

    /// The block that holds this address alone.
    pub fn host_block(self) -> (block: NumericCidr)
        ensures
            block.valid(),
            block == self.host_block_spec(),
            forall|a: int| #[trigger] block.has(a) <==> a == self.number(),
    {
        proof {
            lemma_pow2(0);
            vstd::arithmetic::power2::lemma2_to64();
            lemma_pow2_128();
        }
        match self {
            IpAddress::V4(value) => NumericCidr { start: value as u128, prefix: 32, bits: 32 },
            IpAddress::V6(value) => NumericCidr { start: value, prefix: 128, bits: 128 },
        }
    }

    pub open spec fn host_block_spec(self) -> NumericCidr {
        match self {
            IpAddress::V4(value) => NumericCidr { start: value as u128, prefix: 32, bits: 32 },
            IpAddress::V6(value) => NumericCidr { start: value, prefix: 128, bits: 128 },
        }
    }
}

pub proof fn lemma_pow2_128()
    ensures
        pow2(128) == u128::MAX + 1,
{
    vstd::arithmetic::power2::lemma2_to64();
    lemma_pow2_adds(64, 64);
    assert(0x10000000000000000 * 0x10000000000000000 == u128::MAX + 1) by (nonlinear_arith);
}

/// An address block: `bits` is the width of the family, `start` the first address.
#[derive(Clone, Copy, Debug, PartialEq, Eq, Hash, Structural)]
pub struct NumericCidr {
    pub start: u128,
    pub prefix: u8,
    pub bits: u8,
}

impl NumericCidr {
    /// How many addresses the block has.
    pub open spec fn size(self) -> int {
        pow2((self.bits - self.prefix) as nat) as int
    }

    /// The first address after the block.
    pub open spec fn end(self) -> int {
        self.start + self.size()
    }

    /// A block of IPv4 or IPv6 whose first address has no host bits.
    pub open spec fn valid(self) -> bool {
        &&& self.bits == 32 || self.bits == 128
        &&& self.prefix <= self.bits
        &&& (self.start as int) % self.size() == 0
        &&& self.end() <= pow2(self.bits as nat)
    }

    /// Whether the block has the address `a` of its family.
    pub open spec fn has(self, a: int) -> bool {
        self.start <= a < self.end()
    }

    /// Whether the block has this address, of whichever family it is.
    pub open spec fn has_ip(self, address: IpAddress) -> bool {
        self.bits == address.width() && self.has(address.number())
    }

    /// Whether two blocks have an address in common.
    pub open spec fn meets(self, other: NumericCidr) -> bool {
        self.bits == other.bits && exists|a: int| self.has(a) && #[trigger] other.has(a)
    }

    /// The lower and the upper half of a block that has more than one address.
    pub open spec fn lower(self) -> NumericCidr {
        NumericCidr { start: self.start, prefix: (self.prefix + 1) as u8, bits: self.bits }
    }

    pub open spec fn upper(self) -> NumericCidr {
        NumericCidr {
            start: (self.start + pow2((self.bits - self.prefix - 1) as nat)) as u128,
            prefix: (self.prefix + 1) as u8,
            bits: self.bits,
        }
    }

    /// The last address of the block.
    fn last(self) -> (last: u128)
        requires
            self.valid(),
        ensures
            last + 1 == self.end(),
    {
        let host_bits: u8 = self.bits - self.prefix;
        let offset: u128 = host_mask(host_bits);
        proof {
            self.lemma_end_fits();
        }
        self.start + offset
    }

    proof fn lemma_end_fits(self)
        requires
            self.valid(),
        ensures
            self.end() <= u128::MAX + 1,
            self.size() >= 1,
    {
        lemma_pow2_128();
        lemma_pow2_pos((self.bits - self.prefix) as nat);
        if self.bits == 32 {
            lemma_pow2_strictly_increases(32, 128);
        }
    }

    pub fn overlaps(self, other: NumericCidr) -> (overlap: bool)
        requires
            self.valid(),
            other.valid(),
        ensures
            overlap == self.meets(other),
    {
        if self.bits != other.bits {
            return false;
        }
        let overlap = self.start <= other.last() && other.start <= self.last();
        proof {
            self.lemma_end_fits();
            other.lemma_end_fits();
            if overlap {
                let a = if self.start < other.start {
                    other.start as int
                } else {
                    self.start as int
                };
                assert(self.has(a) && other.has(a));
            }
        }
        overlap
    }

    pub fn contains(self, address: IpAddress) -> (inside: bool)
        requires
            self.valid(),
        ensures
            inside == self.has_ip(address),
    {
        match address {
            IpAddress::V4(value) => self.bits == 32 && self.start <= value as u128 && value as u128
                <= self.last(),
            IpAddress::V6(value) => self.bits == 128 && self.start <= value && value
                <= self.last(),
        }
    }

    /// The two halves of a block that has more than one address.
    pub fn children(self) -> (halves: Option<(NumericCidr, NumericCidr)>)
        requires
            self.valid(),
        ensures
            match halves {
                None => self.prefix == self.bits,
                Some((lower, upper)) => {
                    &&& self.prefix < self.bits
                    &&& lower == self.lower()
                    &&& upper == self.upper()
                    &&& lower.valid()
                    &&& upper.valid()
                    &&& forall|a: int|
                        #![trigger self.has(a)]
                        #![trigger lower.has(a)]
                        #![trigger upper.has(a)]
                        {
                            &&& self.has(a) <==> lower.has(a) || upper.has(a)
                            &&& !(lower.has(a) && upper.has(a))
                        }
                },
            },
    {
        if self.prefix >= self.bits {
            return None;
        }
        proof {
            self.lemma_halves();
            self.lemma_end_fits();
        }
        let prefix: u8 = self.prefix + 1;
        let below_half: u128 = host_mask(self.bits - prefix);
        let start: u128 = self.start + below_half + 1;
        Some(
            (
                NumericCidr { start: self.start, prefix, bits: self.bits },
                NumericCidr { start, prefix, bits: self.bits },
            ),
        )
    }

    /// Halving keeps blocks valid and splits the addresses in two.
    pub proof fn lemma_halves(self)
        requires
            self.valid(),
            self.prefix < self.bits,
        ensures
            self.lower().valid(),
            self.upper().valid(),
            self.lower().end() == self.upper().start,
            self.upper().end() == self.end(),
            self.start < self.upper().start < self.end(),
    {
        let k = (self.bits - self.prefix) as nat;
        lemma_pow2_unfold(k);
        lemma_pow2_pos((k - 1) as nat);
        self.lemma_end_fits();
        let half = pow2((k - 1) as nat) as int;
        let start = self.start as int;
        assert(start % half == 0 && (start + half) % half == 0) by (nonlinear_arith)
            requires
                start % (2 * half) == 0,
                half > 0,
        {
            vstd::arithmetic::div_mod::lemma_fundamental_div_mod(start, 2 * half);
            let q = start / (2 * half);
            assert(start == half * (2 * q));
            vstd::arithmetic::div_mod::lemma_mod_multiples_basic(2 * q, half);
            vstd::arithmetic::div_mod::lemma_mod_multiples_basic(2 * q + 1, half);
            assert(start + half == (2 * q + 1) * half);
            assert(start == (2 * q) * half);
        }
    }

    /// Two overlapping blocks are nested: the one with the shorter prefix has all addresses of
    /// the other.
    pub proof fn lemma_nested(self, other: NumericCidr)
        requires
            self.valid(),
            other.valid(),
            self.meets(other),
            self.prefix <= other.prefix,
        ensures
            self.start <= other.start,
            other.end() <= self.end(),
    {
        let big = self.size();
        let small = other.size();
        let factor = pow2((other.prefix - self.prefix) as nat) as int;
        lemma_pow2_adds((self.bits - other.prefix) as nat, (other.prefix - self.prefix) as nat);
        lemma_pow2_pos((self.bits - other.prefix) as nat);
        lemma_pow2_pos((other.prefix - self.prefix) as nat);
        let p = self.start as int;
        let q = other.start as int;
        let a = choose|a: int| self.has(a) && #[trigger] other.has(a);
        assert(p <= a < p + big && q <= a < q + small);
        assert(p <= q && q + small <= p + big) by (nonlinear_arith)
            requires
                big == small * factor,
                small > 0,
                factor > 0,
                p % big == 0,
                q % small == 0,
                p <= a < p + big,
                q <= a < q + small,
        {
            vstd::arithmetic::div_mod::lemma_fundamental_div_mod(p, big);
            vstd::arithmetic::div_mod::lemma_fundamental_div_mod(q, small);
            let m = p / big;
            let n = q / small;
            assert(p == small * (factor * m));
            assert(q == small * n);
            if q < p {
                assert(n < factor * m);
                assert(n + 1 <= factor * m);
                assert(small * (n + 1) <= small * (factor * m));
                assert(false);
            }
            if q + small > p + big {
                assert(small * (n + 1) > small * (factor * m + factor));
                assert(n + 1 > factor * m + factor);
                assert(n >= factor * m + factor);
                assert(small * n >= small * (factor * m + factor));
                assert(false);
            }
        }
    }
}

/// The number whose `bits` lowest bits are set.
fn host_mask(bits: u8) -> (mask: u128)
    requires
        bits <= 128,
    ensures
        mask + 1 == pow2(bits as nat),
{
    if bits == 0 {
        proof {
            lemma_pow2(0);
            vstd::arithmetic::power2::lemma2_to64();
        }
        return 0;
    }
    let shift: u128 = (128 - bits) as u128;
    proof {
        lemma_pow2_128();
        lemma_u128_shr_is_div(u128::MAX, shift);
        lemma_pow2_adds(bits as nat, shift as nat);
        lemma_pow2_pos(bits as nat);
        lemma_pow2_pos(shift as nat);
        let low = pow2(bits as nat) as int;
        let high = pow2(shift as nat) as int;
        assert((low * high - 1) / high == low - 1) by (nonlinear_arith)
            requires
                low >= 1,
                high >= 1,
        {
            assert(low * high - 1 == (low - 1) * high + (high - 1));
            vstd::arithmetic::div_mod::lemma_fundamental_div_mod_converse(
                low * high - 1,
                high,
                low - 1,
                high - 1,
            );
        }
    }
    u128::MAX >> shift
}

pub open spec fn all_valid(blocks: Seq<NumericCidr>) -> bool {
    forall|i: int| 0 <= i < blocks.len() ==> (#[trigger] blocks[i]).valid()
}

/// Whether one of the blocks of this family has the address.
pub open spec fn covered(blocks: Seq<NumericCidr>, bits: u8, a: int) -> bool {
    exists|i: int| 0 <= i < blocks.len() && (#[trigger] blocks[i]).bits == bits && blocks[i].has(a)
}

/// Whether every address of `base` is in one of the candidates.
pub open spec fn fully_covered(base: NumericCidr, candidates: Seq<NumericCidr>) -> bool {
    forall|a: int| #[trigger] base.has(a) ==> covered(candidates, base.bits, a)
}

/// Decides whether the candidates together have every address of `base`.
pub fn cidrs_cover(base: NumericCidr, candidates: &Vec<NumericCidr>) -> (all: bool)
    requires
        base.valid(),
        all_valid(candidates@),
    ensures
        all == fully_covered(base, candidates@),
    decreases base.bits - base.prefix,
{
    let mut overlapping: Vec<NumericCidr> = Vec::new();
    let mut i: usize = 0;
    while i < candidates.len()
        invariant
            base.valid(),
            all_valid(candidates@),
            all_valid(overlapping@),
            i <= candidates@.len(),
            forall|j: int|
                0 <= j < overlapping@.len() ==> base.meets(#[trigger] overlapping@[j])
                    && candidates@.contains(overlapping@[j]) && overlapping@[j].prefix
                    > base.prefix,
            forall|j: int|
                0 <= j < i && base.meets(#[trigger] candidates@[j]) ==> overlapping@.contains(
                    candidates@[j],
                ),
        decreases candidates@.len() - i,
    {
        let candidate = candidates[i];
        if candidate.overlaps(base) {
            proof {
                let a = choose|a: int| candidate.has(a) && #[trigger] base.has(a);
                assert(base.has(a) && candidate.has(a));
            }
            if candidate.prefix <= base.prefix {
                proof {
                    candidate.lemma_nested(base);
                    assert forall|a: int| #[trigger] base.has(a) implies covered(
                        candidates@,
                        base.bits,
                        a,
                    ) by {
                        assert(candidates@[i as int].has(a));
                    }
                }
                return true;
            }
            let ghost before = overlapping@;
            overlapping.push(candidate);
            proof {
                assert forall|j: int|
                    0 <= j < i + 1 && base.meets(
                        #[trigger] candidates@[j],
                    ) implies overlapping@.contains(candidates@[j]) by {
                    if j < i {
                        let k = choose|k: int| 0 <= k < before.len() && before[k] == candidates@[j];
                        assert(before.contains(candidates@[j]));
                        assert(overlapping@[k] == candidates@[j]);
                    } else {
                        assert(overlapping@[overlapping@.len() - 1] == candidates@[j]);
                    }
                }
            }
        } else {
            proof {
                if base.meets(candidate) {
                    let a = choose|a: int| base.has(a) && #[trigger] candidate.has(a);
                    assert(candidate.has(a) && base.has(a));
                }
            }
        }
        i += 1;
    }
    let all = if overlapping.len() == 0 {
        proof {
            base.lemma_end_fits();
            assert(base.has(base.start as int));
            if fully_covered(base, candidates@) {
                let k = choose|k: int|
                    0 <= k < candidates@.len() && (#[trigger] candidates@[k]).bits == base.bits
                        && candidates@[k].has(base.start as int);
                assert(candidates@[k].has(base.start as int) && base.has(base.start as int));
                assert(base.meets(candidates@[k]));
            }
        }
        false
    } else {
        assert(base.prefix < base.bits) by {
            assert(overlapping@[0].valid());
        }
        match base.children() {
            None => false,
            Some((lower, upper)) => {
                let all = cidrs_cover(lower, &overlapping) && cidrs_cover(upper, &overlapping);
                proof {
                    lemma_cover_halves(base, lower, upper, candidates@, overlapping@);
                }
                all
            },
        }
    };
    all
}

proof fn lemma_cover_halves(
    base: NumericCidr,
    lower: NumericCidr,
    upper: NumericCidr,
    candidates: Seq<NumericCidr>,
    overlapping: Seq<NumericCidr>,
)
    requires
        lower.bits == base.bits,
        upper.bits == base.bits,
        forall|a: int| #[trigger] base.has(a) <==> lower.has(a) || upper.has(a),
        forall|j: int|
            0 <= j < overlapping.len() ==> candidates.contains(#[trigger] overlapping[j]),
        forall|j: int|
            0 <= j < candidates.len() && base.meets(#[trigger] candidates[j])
                ==> overlapping.contains(candidates[j]),
    ensures
        fully_covered(base, candidates) <==> fully_covered(lower, overlapping) && fully_covered(
            upper,
            overlapping,
        ),
{
    assert forall|a: int| base.has(a) implies (covered(candidates, base.bits, a) <==> covered(
        overlapping,
        base.bits,
        a,
    )) by {
        if covered(candidates, base.bits, a) {
            let k = choose|k: int|
                0 <= k < candidates.len() && (#[trigger] candidates[k]).bits == base.bits
                    && candidates[k].has(a);
            assert(base.has(a) && candidates[k].has(a));
            assert(base.meets(candidates[k]));
            let m = choose|m: int| 0 <= m < overlapping.len() && overlapping[m] == candidates[k];
            assert(overlapping[m].has(a));
        }
        if covered(overlapping, base.bits, a) {
            let m = choose|m: int|
                0 <= m < overlapping.len() && (#[trigger] overlapping[m]).bits == base.bits
                    && overlapping[m].has(a);
            let k = choose|k: int| 0 <= k < candidates.len() && candidates[k] == overlapping[m];
            assert(candidates[k].has(a));
        }
    }
    if fully_covered(base, candidates) {
        assert forall|a: int| #[trigger] lower.has(a) implies covered(
            overlapping,
            lower.bits,
            a,
        ) by {
            assert(base.has(a));
        }
        assert forall|a: int| #[trigger] upper.has(a) implies covered(
            overlapping,
            upper.bits,
            a,
        ) by {
            assert(base.has(a));
        }
    }
    if fully_covered(lower, overlapping) && fully_covered(upper, overlapping) {
        assert forall|a: int| #[trigger] base.has(a) implies covered(
            candidates,
            base.bits,
            a,
        ) by {
            if lower.has(a) {
                assert(covered(overlapping, lower.bits, a));
            } else {
                assert(covered(overlapping, upper.bits, a));
            }
        }
    }
}

/// The blocks that are left of `base` without `excluded`, in address order.
pub open spec fn difference(base: NumericCidr, excluded: NumericCidr) -> Seq<NumericCidr>
    decreases base.bits - base.prefix,
{
    if !base.meets(excluded) {
        seq![base]
    } else if excluded.prefix <= base.prefix || base.prefix >= base.bits {
        Seq::empty()
    } else {
        difference(base.lower(), excluded) + difference(base.upper(), excluded)
    }
}

/// What is left of a block without another: exactly the addresses of the first that the second
/// does not have, each in one block only.
pub proof fn law_difference_is_exact(base: NumericCidr, excluded: NumericCidr)
    requires
        base.valid(),
        excluded.valid(),
    ensures
        all_valid(difference(base, excluded)),
        forall|i: int|
            0 <= i < difference(base, excluded).len() ==> {
                let part = #[trigger] difference(base, excluded)[i];
                part.bits == base.bits && base.start <= part.start && part.end() <= base.end()
            },
        forall|a: int|
            base.has(a) ==> (#[trigger] covered(difference(base, excluded), base.bits, a) <==> !(
            base.bits == excluded.bits && excluded.has(a))),
        forall|i: int, j: int|
            0 <= i < j < difference(base, excluded).len() ==> (#[trigger] difference(
                base,
                excluded,
            )[i]).end() <= (#[trigger] difference(base, excluded)[j]).start,
    decreases base.bits - base.prefix,
{
    let parts = difference(base, excluded);
    if !base.meets(excluded) {
        assert forall|a: int| base.has(a) implies (#[trigger] covered(parts, base.bits, a) <==> !(
        base.bits == excluded.bits && excluded.has(a))) by {
            assert(parts[0].has(a));
            if base.bits == excluded.bits && excluded.has(a) {
                assert(base.has(a) && excluded.has(a));
            }
        }
    } else if excluded.prefix <= base.prefix {
        let a = choose|a: int| base.has(a) && #[trigger] excluded.has(a);
        assert(excluded.has(a) && base.has(a));
        excluded.lemma_nested(base);
    } else {
        base.lemma_halves();
        let low = difference(base.lower(), excluded);
        let high = difference(base.upper(), excluded);
        law_difference_is_exact(base.lower(), excluded);
        law_difference_is_exact(base.upper(), excluded);
        assert(parts == low + high);
        assert forall|i: int| 0 <= i < parts.len() implies {
            let part = #[trigger] parts[i];
            part.valid() && part.bits == base.bits && base.start <= part.start && part.end()
                <= base.end()
        } by {
            if i < low.len() {
                assert(parts[i] == low[i]);
            } else {
                assert(parts[i] == high[i - low.len()]);
            }
        }
        assert forall|a: int| base.has(a) implies (#[trigger] covered(parts, base.bits, a) <==> !(
        base.bits == excluded.bits && excluded.has(a))) by {
            if base.lower().has(a) {
                assert(covered(low, base.bits, a) <==> !(base.bits == excluded.bits
                    && excluded.has(a)));
            } else {
                assert(base.upper().has(a));
                assert(covered(high, base.bits, a) <==> !(base.bits == excluded.bits
                    && excluded.has(a)));
            }
            if covered(low, base.bits, a) {
                let i = choose|i: int|
                    0 <= i < low.len() && (#[trigger] low[i]).bits == base.bits && low[i].has(a);
                assert(parts[i] == low[i]);
            }
            if covered(high, base.bits, a) {
                let i = choose|i: int|
                    0 <= i < high.len() && (#[trigger] high[i]).bits == base.bits && high[i].has(a);
                assert(parts[low.len() + i] == high[i]);
            }
            if covered(parts, base.bits, a) {
                let i = choose|i: int|
                    0 <= i < parts.len() && (#[trigger] parts[i]).bits == base.bits
                        && parts[i].has(a);
                if i < low.len() {
                    assert(low[i] == parts[i]);
                    assert(low[i].end() <= base.lower().end());
                } else {
                    assert(high[i - low.len()] == parts[i]);
                    assert(base.upper().start <= high[i - low.len()].start);
                }
            }
        }
        assert forall|i: int, j: int| 0 <= i < j < parts.len() implies (#[trigger] parts[i]).end()
            <= (#[trigger] parts[j]).start by {
            if j < low.len() {
                assert(parts[i] == low[i] && parts[j] == low[j]);
            } else if i >= low.len() {
                assert(parts[i] == high[i - low.len()] && parts[j] == high[j - low.len()]);
            } else {
                assert(parts[i] == low[i] && parts[j] == high[j - low.len()]);
                assert(low[i].end() <= base.lower().end());
                assert(base.upper().start <= high[j - low.len()].start);
            }
        }
    }
}

/// The route table would grow past its limit.
#[derive(Debug, Clone, Copy, PartialEq, Eq, Structural)]
pub struct TooManyRoutes;

/// Appends what is left of `base` without `excluded`. Fails once the output has more than
/// `max_routes` blocks; it then holds the blocks up to that point.
pub fn subtract_one_cidr(
    base: NumericCidr,
    excluded: NumericCidr,
    max_routes: usize,
    output: &mut Vec<NumericCidr>,
) -> (result: Result<(), TooManyRoutes>)
    requires
        base.valid(),
        excluded.valid(),
        old(output)@.len() <= max_routes,
        max_routes < usize::MAX,
    ensures
        result is Ok <==> old(output)@.len() + difference(base, excluded).len() <= max_routes,
        result is Ok ==> final(output)@ == old(output)@ + difference(base, excluded),
        result is Err ==> final(output)@.len() == max_routes + 1 && final(output)@ =~= (old(
            output,
        )@ + difference(base, excluded)).take(max_routes + 1),
    decreases base.bits - base.prefix,
{
    if !base.overlaps(excluded) {
        output.push(base);
        if output.len() > max_routes {
            return Err(TooManyRoutes);
        }
        return Ok(());
    }
    if excluded.prefix <= base.prefix {
        return Ok(());
    }
    match base.children() {
        None => Ok(()),
        Some((lower, upper)) => {
            let ghost before = output@;
            let ghost low = difference(base.lower(), excluded);
            let ghost high = difference(base.upper(), excluded);
            let first = subtract_one_cidr(lower, excluded, max_routes, output);
            if first.is_err() {
                assert((before + (low + high)).take(max_routes + 1) =~= (before + low).take(
                    max_routes + 1,
                ));
                return Err(TooManyRoutes);
            }
            let second = subtract_one_cidr(upper, excluded, max_routes, output);
            assert(before + (low + high) =~= (before + low) + high);
            second
        },
    }
}

/// Blocks of one family in address order, no address in two of them.
pub open spec fn tidy(blocks: Seq<NumericCidr>, bits: u8) -> bool {
    &&& all_valid(blocks)
    &&& forall|i: int| 0 <= i < blocks.len() ==> (#[trigger] blocks[i]).bits == bits
    &&& forall|i: int, j: int|
        0 <= i < j < blocks.len() ==> (#[trigger] blocks[i]).end() <= (#[trigger] blocks[j]).start
}

/// What is left of each block without `excluded`, one after the other.
pub open spec fn minus_each(blocks: Seq<NumericCidr>, excluded: NumericCidr) -> Seq<NumericCidr>
    decreases blocks.len(),
{
    if blocks.len() == 0 {
        Seq::empty()
    } else {
        minus_each(blocks.drop_last(), excluded) + difference(blocks.last(), excluded)
    }
}

/// What is left of the blocks of one family without all excluded blocks of that family, or
/// `None` where a step would leave more than `max_routes` blocks.
pub open spec fn minus_all(
    blocks: Seq<NumericCidr>,
    excludes: Seq<NumericCidr>,
    bits: u8,
    max_routes: nat,
) -> Option<Seq<NumericCidr>>
    decreases excludes.len(),
{
    if excludes.len() == 0 {
        Some(blocks)
    } else if excludes[0].bits != bits {
        minus_all(blocks, excludes.drop_first(), bits, max_routes)
    } else {
        let next = minus_each(blocks, excludes[0]);
        if next.len() > max_routes {
            None
        } else {
            minus_all(next, excludes.drop_first(), bits, max_routes)
        }
    }
}

proof fn lemma_minus_each(blocks: Seq<NumericCidr>, excluded: NumericCidr, bits: u8)
    requires
        tidy(blocks, bits),
        excluded.valid(),
        excluded.bits == bits,
    ensures
        tidy(minus_each(blocks, excluded), bits),
        forall|a: int| #[trigger]
            covered(minus_each(blocks, excluded), bits, a) <==> covered(blocks, bits, a)
                && !excluded.has(a),
        forall|i: int|
            0 <= i < minus_each(blocks, excluded).len() ==> blocks.len() > 0 && blocks[0].start
                <= (#[trigger] minus_each(blocks, excluded)[i]).start && minus_each(
                blocks,
                excluded,
            )[i].end() <= blocks.last().end(),
    decreases blocks.len(),
{
    if blocks.len() > 0 {
        let front = blocks.drop_last();
        let last = blocks.last();
        assert forall|i: int| 0 <= i < front.len() implies (#[trigger] front[i]).valid()
            && front[i].bits == bits by {
            assert(front[i] == blocks[i]);
        }
        assert forall|i: int, j: int| 0 <= i < j < front.len() implies (#[trigger] front[i]).end()
            <= (#[trigger] front[j]).start by {
            assert(front[i] == blocks[i] && front[j] == blocks[j]);
        }
        lemma_minus_each(front, excluded, bits);
        law_difference_is_exact(last, excluded);
        assert(last == blocks[blocks.len() - 1]);
        let head = minus_each(front, excluded);
        let tail = difference(last, excluded);
        let parts = head + tail;
        assert(minus_each(blocks, excluded) == parts);
        assert(front.len() > 0 ==> front.last() == blocks[blocks.len() - 2]);
        assert forall|i: int| 0 <= i < parts.len() implies {
            let part = #[trigger] parts[i];
            part.valid() && part.bits == bits && blocks[0].start <= part.start && part.end()
                <= last.end()
        } by {
            if i < head.len() {
                assert(parts[i] == head[i]);
                assert(front[0] == blocks[0]);
                assert(blocks[blocks.len() - 2].end() <= blocks[blocks.len() - 1].start);
                last.lemma_end_fits();
            } else {
                assert(parts[i] == tail[i - head.len()]);
                if front.len() > 0 {
                    assert(blocks[0].end() <= blocks[blocks.len() - 1].start);
                    blocks[0].lemma_end_fits();
                }
            }
        }
        assert forall|i: int, j: int| 0 <= i < j < parts.len() implies (#[trigger] parts[i]).end()
            <= (#[trigger] parts[j]).start by {
            if j < head.len() {
                assert(parts[i] == head[i] && parts[j] == head[j]);
            } else if i >= head.len() {
                assert(parts[i] == tail[i - head.len()] && parts[j] == tail[j - head.len()]);
            } else {
                assert(parts[i] == head[i] && parts[j] == tail[j - head.len()]);
                assert(blocks[blocks.len() - 2].end() <= blocks[blocks.len() - 1].start);
            }
        }
        assert forall|a: int| #[trigger]
            covered(parts, bits, a) <==> covered(blocks, bits, a) && !excluded.has(a) by {
            if covered(parts, bits, a) {
                let i = choose|i: int|
                    0 <= i < parts.len() && (#[trigger] parts[i]).bits == bits && parts[i].has(a);
                if i < head.len() {
                    assert(head[i] == parts[i]);
                    assert(covered(head, bits, a));
                    let k = choose|k: int|
                        0 <= k < front.len() && (#[trigger] front[k]).bits == bits && front[k].has(
                            a,
                        );
                    assert(blocks[k] == front[k]);
                } else {
                    assert(tail[i - head.len()] == parts[i]);
                    assert(covered(tail, last.bits, a));
                    assert(last.has(a));
                    assert(blocks[blocks.len() - 1].has(a));
                }
            }
            if covered(blocks, bits, a) && !excluded.has(a) {
                let k = choose|k: int|
                    0 <= k < blocks.len() && (#[trigger] blocks[k]).bits == bits && blocks[k].has(
                        a,
                    );
                if k < front.len() {
                    assert(front[k] == blocks[k]);
                    assert(covered(front, bits, a));
                    assert(covered(head, bits, a));
                    let i = choose|i: int|
                        0 <= i < head.len() && (#[trigger] head[i]).bits == bits && head[i].has(a);
                    assert(parts[i] == head[i]);
                } else {
                    assert(last.has(a));
                    assert(covered(tail, last.bits, a));
                    let i = choose|i: int|
                        0 <= i < tail.len() && (#[trigger] tail[i]).bits == bits && tail[i].has(a);
                    assert(parts[head.len() + i] == tail[i]);
                }
            }
        }
    }
}

/// Subtracting a list leaves exactly the addresses that none of the list has, each in one block.
pub proof fn law_subtraction_is_exact(
    blocks: Seq<NumericCidr>,
    excludes: Seq<NumericCidr>,
    bits: u8,
    max_routes: nat,
)
    requires
        tidy(blocks, bits),
        all_valid(excludes),
    ensures
        minus_all(blocks, excludes, bits, max_routes) matches Some(left) ==> {
            &&& tidy(left, bits)
            &&& forall|a: int| #[trigger]
                covered(left, bits, a) <==> covered(blocks, bits, a) && !covered(excludes, bits, a)
        },
    decreases excludes.len(),
{
    if excludes.len() > 0 {
        let rest = excludes.drop_first();
        assert forall|i: int| 0 <= i < rest.len() implies (#[trigger] rest[i]).valid() by {
            assert(rest[i] == excludes[i + 1]);
        }
        let next = if excludes[0].bits != bits {
            blocks
        } else {
            minus_each(blocks, excludes[0])
        };
        if excludes[0].bits == bits {
            lemma_minus_each(blocks, excludes[0], bits);
        }
        law_subtraction_is_exact(next, rest, bits, max_routes);
        assert forall|a: int| #[trigger]
            covered(excludes, bits, a) <==> (excludes[0].bits == bits && excludes[0].has(a))
                || covered(rest, bits, a) by {
            if covered(excludes, bits, a) {
                let i = choose|i: int|
                    0 <= i < excludes.len() && (#[trigger] excludes[i]).bits == bits
                        && excludes[i].has(a);
                if i > 0 {
                    assert(rest[i - 1] == excludes[i]);
                }
            }
            if covered(rest, bits, a) {
                let i = choose|i: int|
                    0 <= i < rest.len() && (#[trigger] rest[i]).bits == bits && rest[i].has(a);
                assert(excludes[i + 1] == rest[i]);
            }
            if excludes[0].bits == bits && excludes[0].has(a) {
                assert(excludes[0].bits == bits);
            }
        }
    }
}

proof fn lemma_minus_nothing(excludes: Seq<NumericCidr>, bits: u8, max_routes: nat)
    ensures
        minus_all(Seq::empty(), excludes, bits, max_routes) == Some(Seq::<NumericCidr>::empty()),
    decreases excludes.len(),
{
    if excludes.len() > 0 {
        lemma_minus_nothing(excludes.drop_first(), bits, max_routes);
        assert(minus_each(Seq::empty(), excludes[0]) =~= Seq::<NumericCidr>::empty());
    }
}

/// What is left of a block without all excluded blocks of its family.
pub fn cidr_minus_excludes(base: NumericCidr, excludes: &Vec<NumericCidr>, max_routes: usize) -> (
    result: Result<Vec<NumericCidr>, TooManyRoutes>)
    requires
        base.valid(),
        all_valid(excludes@),
        max_routes < usize::MAX,
    ensures
        match minus_all(seq![base], excludes@, base.bits, max_routes as nat) {
            Some(left) => result is Ok && result->Ok_0@ == left,
            None => result is Err,
        },
        result is Ok ==> tidy(result->Ok_0@, base.bits) && forall|a: int| #[trigger]
            covered(result->Ok_0@, base.bits, a) <==> base.has(a) && !covered(
                excludes@,
                base.bits,
                a,
            ),
{
    let mut fragments: Vec<NumericCidr> = Vec::new();
    fragments.push(base);
    let ghost whole = minus_all(seq![base], excludes@, base.bits, max_routes as nat);
    proof {
        assert(fragments@ =~= seq![base]);
        assert(excludes@.skip(0) =~= excludes@);
        law_subtraction_is_exact(seq![base], excludes@, base.bits, max_routes as nat);
        assert forall|a: int| #[trigger] covered(seq![base], base.bits, a) <==> base.has(a) by {
            if base.has(a) {
                assert(seq![base][0].has(a));
            }
        }
    }
    let mut i: usize = 0;
    while i < excludes.len()
        invariant
            base.valid(),
            all_valid(excludes@),
            max_routes < usize::MAX,
            i <= excludes@.len(),
            tidy(fragments@, base.bits),
            whole == minus_all(seq![base], excludes@, base.bits, max_routes as nat),
            whole matches Some(left) ==> tidy(left, base.bits) && forall|a: int| #[trigger]
                covered(left, base.bits, a) <==> base.has(a) && !covered(
                    excludes@,
                    base.bits,
                    a,
                ),
            whole == minus_all(
                fragments@,
                excludes@.skip(i as int),
                base.bits,
                max_routes as nat,
            ),
        decreases excludes@.len() - i,
    {
        let excluded = excludes[i];
        assert(excludes@.skip(i as int)[0] == excluded);
        assert(excludes@.skip(i as int).drop_first() =~= excludes@.skip(i + 1));
        if excluded.bits == base.bits {
            proof {
                lemma_minus_each(fragments@, excluded, base.bits);
            }
            let mut next: Vec<NumericCidr> = Vec::new();
            let mut k: usize = 0;
            let ghost every = minus_each(fragments@, excluded);
            assert(fragments@.take(0) =~= Seq::<NumericCidr>::empty());
            while k < fragments.len()
                invariant
                    base.valid(),
                    excluded.valid(),
                    max_routes < usize::MAX,
                    k <= fragments@.len(),
                    tidy(fragments@, base.bits),
                    next@ == minus_each(fragments@.take(k as int), excluded),
                    next@.len() <= max_routes,
                    i < excludes@.len(),
                    excludes@.skip(i as int)[0] == excluded,
                    excluded.bits == base.bits,
                    whole == minus_all(seq![base], excludes@, base.bits, max_routes as nat),
                    whole == minus_all(
                        fragments@,
                        excludes@.skip(i as int),
                        base.bits,
                        max_routes as nat,
                    ),
                decreases fragments@.len() - k,
            {
                proof {
                    let longer = fragments@.take(k + 1);
                    assert(longer.drop_last() =~= fragments@.take(k as int));
                    assert(longer.last() == fragments@[k as int]);
                    lemma_minus_each_grows(fragments@, excluded, k + 1);
                }
                if subtract_one_cidr(fragments[k], excluded, max_routes, &mut next).is_err() {
                    return Err(TooManyRoutes);
                }
                k += 1;
            }
            assert(fragments@.take(fragments@.len() as int) =~= fragments@);
            fragments = next;
            if fragments.len() == 0 {
                proof {
                    assert(fragments@ =~= Seq::<NumericCidr>::empty());
                    lemma_minus_nothing(
                        excludes@.skip(i + 1),
                        base.bits,
                        max_routes as nat,
                    );
                }
                return Ok(fragments);
            }
        }
        i += 1;
    }
    assert(excludes@.skip(i as int).len() == 0);
    Ok(fragments)
}

proof fn lemma_minus_each_grows(blocks: Seq<NumericCidr>, excluded: NumericCidr, k: int)
    requires
        0 <= k <= blocks.len(),
    ensures
        minus_each(blocks.take(k), excluded).len() <= minus_each(blocks, excluded).len(),
    decreases blocks.len(),
{
    if k == blocks.len() {
        assert(blocks.take(k) =~= blocks);
    } else {
        lemma_minus_each_grows(blocks.drop_last(), excluded, k);
        assert(blocks.drop_last().take(k) =~= blocks.take(k));
    }
}

/// A block has exactly the addresses that agree with its first one in the first `prefix` bits: what
/// is left of both is the same once the lower bits are cut off.
pub proof fn law_blocks_share_their_prefix(block: NumericCidr, address: IpAddress)
    requires
        block.valid(),
    ensures
        ({
            let (bits, number) = match address {
                IpAddress::V4(value) => (32int, value as int),
                IpAddress::V6(value) => (128int, value as int),
            };
            let lower = pow2((block.bits - block.prefix) as nat) as int;
            block.has_ip(address) <==> block.bits == bits && number / lower == block.start as int
                / lower
        }),
        address.host_block_spec().bits == address.host_block_spec().prefix,
        address.host_block_spec().has_ip(address),
        address.host_block_spec().start == match address {
            IpAddress::V4(value) => value as int,
            IpAddress::V6(value) => value as int,
        },
{
    let lower = block.size();
    lemma_pow2_pos((block.bits - block.prefix) as nat);
    vstd::arithmetic::power2::lemma2_to64();
    let start = block.start as int;
    let a = address.number();
    assert(start <= a < start + lower <==> a / lower == start / lower) by (nonlinear_arith)
        requires
            lower > 0,
            start % lower == 0,
            a >= 0,
            start >= 0,
    {
        vstd::arithmetic::div_mod::lemma_fundamental_div_mod(a, lower);
        vstd::arithmetic::div_mod::lemma_fundamental_div_mod(start, lower);
        vstd::arithmetic::div_mod::lemma_mod_bound(a, lower);
        let q = a / lower;
        let p = start / lower;
        if q < p {
            assert(lower * (q + 1) <= lower * p);
        }
        if q > p {
            assert(lower * q >= lower * (p + 1));
        }
    }
}

/// What is left of a block without another is one block at most where the other is as broad, and
/// otherwise no more than one for each bit between the two prefixes.
pub proof fn law_difference_is_small(base: NumericCidr, excluded: NumericCidr)
    requires
        base.valid(),
        excluded.valid(),
    ensures
        excluded.prefix <= base.prefix || excluded.bits != base.bits ==> difference(
            base,
            excluded,
        ).len() <= 1,
        excluded.prefix > base.prefix ==> difference(base, excluded).len() <= excluded.prefix
            - base.prefix,
        !base.meets(excluded) ==> difference(base, excluded) == seq![base],
    decreases base.bits - base.prefix,
{
    if base.meets(excluded) && excluded.prefix > base.prefix {
        base.lemma_halves();
        law_difference_is_small(base.lower(), excluded);
        law_difference_is_small(base.upper(), excluded);
        let low = base.lower();
        let high = base.upper();
        if low.meets(excluded) && high.meets(excluded) {
            low.lemma_nested(excluded);
            high.lemma_nested(excluded);
            let a = choose|a: int| low.has(a) && #[trigger] excluded.has(a);
            assert(excluded.start < excluded.end());
        }
        assert(low.meets(excluded) || high.meets(excluded)) by {
            let a = choose|a: int| base.has(a) && #[trigger] excluded.has(a);
            assert(excluded.has(a));
            if a < high.start {
                assert(low.has(a));
            } else {
                assert(high.has(a));
            }
        }
        if excluded.prefix == base.prefix + 1 {
            if low.meets(excluded) {
                assert(difference(low, excluded).len() == 0);
            }
            if high.meets(excluded) {
                assert(difference(high, excluded).len() == 0);
            }
        }
    }
}

proof fn lemma_minus_each_is_small(blocks: Seq<NumericCidr>, excluded: NumericCidr, bits: u8)
    requires
        tidy(blocks, bits),
        excluded.valid(),
        excluded.bits == bits,
    ensures
        minus_each(blocks, excluded).len() <= blocks.len() + bits,
        (forall|i: int| 0 <= i < blocks.len() ==> !(#[trigger] blocks[i]).meets(excluded))
            ==> minus_each(blocks, excluded) == blocks,
    decreases blocks.len(),
{
    if blocks.len() > 0 {
        let front = blocks.drop_last();
        let last = blocks.last();
        assert(blocks[blocks.len() - 1] == last);
        assert(tidy(front, bits)) by {
            assert forall|i: int| 0 <= i < front.len() implies (#[trigger] front[i]).valid()
                && front[i].bits == bits by {
                assert(front[i] == blocks[i]);
            }
            assert forall|i: int, j: int| 0 <= i < j < front.len() implies (#[trigger]
            front[i]).end() <= (#[trigger] front[j]).start by {
                assert(front[i] == blocks[i] && front[j] == blocks[j]);
            }
        }
        lemma_minus_each_is_small(front, excluded, bits);
        law_difference_is_small(last, excluded);
        if last.meets(excluded) && excluded.prefix > last.prefix {
            last.lemma_nested(excluded);
            assert forall|i: int| 0 <= i < front.len() implies !(#[trigger] front[i]).meets(
                excluded,
            ) by {
                assert(front[i] == blocks[i]);
                assert(blocks[i].end() <= blocks[blocks.len() - 1].start);
                if front[i].meets(excluded) {
                    let a = choose|a: int| front[i].has(a) && #[trigger] excluded.has(a);
                }
            }
        }
        if forall|i: int| 0 <= i < blocks.len() ==> !(#[trigger] blocks[i]).meets(excluded) {
            assert forall|i: int| 0 <= i < front.len() implies !(#[trigger] front[i]).meets(
                excluded,
            ) by {
                assert(front[i] == blocks[i]);
            }
            assert(minus_each(blocks, excluded) =~= blocks);
        }
    } else {
        assert(minus_each(blocks, excluded) =~= blocks);
    }
}

/// Subtracting a list is owed a result wherever there is room: each excluded block adds at most as
/// many blocks as its family has bits. Blocks that meet nothing excluded stay as they are.
pub proof fn law_subtraction_is_owed_room(
    blocks: Seq<NumericCidr>,
    excludes: Seq<NumericCidr>,
    bits: u8,
    max_routes: nat,
)
    requires
        tidy(blocks, bits),
        all_valid(excludes),
    ensures
        blocks.len() + excludes.len() * bits <= max_routes ==> minus_all(
            blocks,
            excludes,
            bits,
            max_routes,
        ) is Some,
        minus_all(blocks, excludes, bits, max_routes) matches Some(left) ==> left.len()
            <= blocks.len() + excludes.len() * bits,
        blocks.len() <= max_routes && (forall|i: int, j: int|
            0 <= i < blocks.len() && 0 <= j < excludes.len() ==> !(#[trigger] blocks[i]).meets(
                #[trigger] excludes[j],
            )) ==> minus_all(blocks, excludes, bits, max_routes) == Some(blocks),
    decreases excludes.len(),
{
    if excludes.len() > 0 {
        let rest = excludes.drop_first();
        assert forall|i: int| 0 <= i < rest.len() implies (#[trigger] rest[i]).valid() by {
            assert(rest[i] == excludes[i + 1]);
        }
        let next = if excludes[0].bits != bits {
            blocks
        } else {
            minus_each(blocks, excludes[0])
        };
        if excludes[0].bits == bits {
            lemma_minus_each(blocks, excludes[0], bits);
            lemma_minus_each_is_small(blocks, excludes[0], bits);
        }
        assert(excludes.len() * bits == rest.len() * bits + bits) by (nonlinear_arith)
            requires
                excludes.len() == rest.len() + 1,
        ;
        assert(rest.len() * bits >= 0) by (nonlinear_arith);
        law_subtraction_is_owed_room(next, rest, bits, max_routes);
        if forall|i: int, j: int|
            0 <= i < blocks.len() && 0 <= j < excludes.len() ==> !(#[trigger] blocks[i]).meets(
                #[trigger] excludes[j],
            ) {
            assert(forall|i: int| 0 <= i < blocks.len() ==> !(#[trigger] blocks[i]).meets(
                excludes[0],
            ));
            assert(next == blocks);
            assert forall|i: int, j: int| 0 <= i < blocks.len() && 0 <= j < rest.len() implies !(
            #[trigger] blocks[i]).meets(#[trigger] rest[j]) by {
                assert(rest[j] == excludes[j + 1]);
            }
        }
    }
}

} // verus!
