use vstd::prelude::*;
use vstd::arithmetic::div_mod::{lemma_mod_breakdown, lemma_mod_multiples_vanish, lemma_small_mod};
use vstd::arithmetic::power2::{
    pow2, lemma2_to64, lemma_pow2_adds, lemma_pow2_pos, lemma_pow2_strictly_increases,
    lemma_pow2_unfold,
};
use vstd::bits::{lemma_u32_shl_is_mul, lemma_u32_shr_is_div};
use vstd::string::StringExecFns;
use crate::error::GeneError;
use crate::gene_bit::GeneBit;

verus! {

/// The genetic code of one individual.  Position 0 is the lowest: it comes
/// first in the vector and takes the two lowest bits of the packed value.
#[derive(Debug, PartialEq, Eq)]
pub struct Gene(pub Vec<GeneBit>);

impl View for Gene {
    type V = Seq<GeneBit>;

    open spec fn view(&self) -> Seq<GeneBit> {
        self.0@
    }
}

impl Clone for Gene {
    /// A gene with the same states.
    fn clone(&self) -> (copy: Self)
        ensures
            copy@ == self@,
    {
        Gene(self.0.clone())
    }
}

/// The packed value of a gene: position `i` adds its genetic value times
/// `4^i`, that is, shifted left by `2 * i` bits.
pub open spec fn pack(bits: Seq<GeneBit>) -> nat
    decreases bits.len(),
{
    if bits.len() == 0 {
        0
    } else {
        pack(bits.drop_last()) + bits.last().genetic_value() * pow2(
            (2 * (bits.len() - 1)) as nat,
        )
    }
}

/// What a string reads as, position 0 first: the state of each character,
/// if every character stands for a state.
pub open spec fn parse(text: Seq<char>) -> Option<Seq<GeneBit>> {
    if forall|i: int| 0 <= i < text.len() ==> GeneBit::of_digit(#[trigger] text[i]) is Some {
        Some(Seq::new(text.len(), |i: int| GeneBit::of_digit(text[i])->0))
    } else {
        None
    }
}

/// What a string reads as, position 0 last.
pub open spec fn parse_human(text: Seq<char>) -> Option<Seq<GeneBit>> {
    match parse(text) {
        Some(bits) => Some(bits.reverse()),
        None => None,
    }
}

/// A gene written out, position 0 first.
pub open spec fn render(bits: Seq<GeneBit>) -> Seq<char> {
    Seq::new(bits.len(), |i: int| bits[i].digit())
}

/// A gene written out, position 0 last.
pub open spec fn render_human(bits: Seq<GeneBit>) -> Seq<char> {
    render(bits).reverse()
}

/// Whether `r` is what reading gave: the gene read, or the error for a
/// character that stands for no state.
pub open spec fn is_reading(r: Result<Gene, GeneError>, read: Option<Seq<GeneBit>>) -> bool {
    match r {
        Ok(gene) => read == Some(gene@),
        Err(e) => e == GeneError::InvalidCharacter && read is None,
    }
}

impl Gene {
    /// Reads a gene from its digits, position 0 first.
    pub fn from_string(str: &str) -> (r: Result<Self, GeneError>)
        ensures
            is_reading(r, parse(str@)),
            r matches Ok(gene) ==> render(gene@) == str@,
    {
        let mut bits: Vec<GeneBit> = Vec::new();
        for ch in it: str.chars()
            invariant
                it.seq() == str@,
                bits@.len() == it.index(),
                forall|i: int|
                    0 <= i < bits@.len() ==> GeneBit::of_digit(#[trigger] str@[i]) == Some(
                        bits@[i],
                    ),
        {
            match GeneBit::from_char(ch) {
                Ok(bit) => {
                    bits.push(bit);
                },
                Err(e) => {
                    return Err(e);
                },
            }
        }
        proof {
            assert(bits@ =~= parse(str@)->0);
            lemma_parse_render(str@);
        }
        Ok(Gene(bits))
    }

    /// Reads a gene from its digits, position 0 last.
    pub fn from_human_string(str: &str) -> (r: Result<Self, GeneError>)
        ensures
            is_reading(r, parse_human(str@)),
            r matches Ok(gene) ==> render_human(gene@) == str@,
    {
        match Gene::from_string(str) {
            Ok(gene) => {
                let mut bits: Vec<GeneBit> = Vec::new();
                let mut left: usize = gene.0.len();
                while left > 0
                    invariant
                        left <= gene@.len(),
                        bits@.len() == gene@.len() - left,
                        forall|i: int|
                            0 <= i < bits@.len() ==> bits@[i] == gene@[gene@.len() - 1 - i],
                    decreases left,
                {
                    left -= 1;
                    bits.push(gene.0[left]);
                }
                proof {
                    assert(bits@ =~= gene@.reverse());
                    lemma_parse_render(str@);
                }
                Ok(Gene(bits))
            },
            Err(e) => Err(e),
        }
    }

    /// Writes the gene as digits, position 0 first.
    pub fn to_string(&self) -> (text: String)
        ensures
            text@ == render(self@),
            parse(text@) == Some(self@),
    {
        let mut text = String::new();
        let mut index: usize = 0;
        while index < self.0.len()
            invariant
                index <= self@.len(),
                text@ == render(self@.take(index as int)),
            decreases self@.len() - index,
        {
            text.append(digit_str(self.0[index]));
            index += 1;
            assert(text@ =~= render(self@.take(index as int)));
        }
        proof {
            assert(self@.take(index as int) == self@);
            lemma_render_parse(self@);
        }
        text
    }

    /// Writes the gene as digits, position 0 last.
    pub fn to_human_string(&self) -> (text: String)
        ensures
            text@ == render_human(self@),
            parse_human(text@) == Some(self@),
    {
        let mut text = String::new();
        let mut left: usize = self.0.len();
        while left > 0
            invariant
                left <= self@.len(),
                text@ == render_human(self@.skip(left as int)),
            decreases left,
        {
            left -= 1;
            text.append(digit_str(self.0[left]));
            assert(text@ =~= render_human(self@.skip(left as int)));
        }
        proof {
            assert(self@.skip(0) == self@);
            lemma_render_parse(self@);
        }
        text
    }

    /// The packed value of the lowest `count` positions.
    pub(crate) fn pack_prefix(&self, count: usize) -> (v: u32)
        requires
            count <= self@.len(),
            count <= 16,
        ensures
            v == pack(self@.take(count as int)),
    {
        let mut acc: u32 = 0;
        let mut index: usize = 0;
        while index < count
            invariant
                index <= count <= self@.len(),
                count <= 16,
                acc == pack(self@.take(index as int)),
            decreases count - index,
        {
            let bit: u32 = self.0[index].value();
            let shift: u32 = (2 * index) as u32;
            proof {
                let done = self@.take(index as int);
                let next = self@.take(index + 1);
                assert(next.drop_last() == done);
                assert(next.last() == self@[index as int]);
                lemma_pack_bound(done);
                lemma2_to64();
                if shift < 30 {
                    lemma_pow2_strictly_increases(shift as nat, 30);
                }
                assert(bit * pow2(shift as nat) <= 3 * 0x4000_0000) by (nonlinear_arith)
                    requires
                        bit <= 3,
                        pow2(shift as nat) <= 0x4000_0000,
                ;
                lemma_u32_shl_is_mul(1, shift);
                lemma_u32_shl_is_mul(bit, shift);
                lemma_or_is_add(acc, bit, shift);
            }
            acc = acc | (bit << shift);
            index += 1;
        }
        acc
    }

    /// The packed value: below `4^n` for `n` positions, with the genetic
    /// value of position `i` in bits `2 * i` and `2 * i + 1`.  A `u32` holds
    /// sixteen positions.
    pub fn value(&self) -> (v: u32)
        requires
            self@.len() <= 16,
        ensures
            v == pack(self@),
            v < pow2(2 * self@.len()),
            forall|i: u32|
                i < self@.len() ==> (v >> (2 * i) as u32) & 3 == (#[trigger] self@[i as int]).genetic_value(),
    {
        let v = self.pack_prefix(self.0.len());
        proof {
            assert(self@.take(self@.len() as int) == self@);
            lemma_pack_bound(self@);
            assert forall|i: u32| i < self@.len() implies (v >> (2 * i) as u32) & 3 == (
            #[trigger] self@[i as int]).genetic_value() by {
                lemma_value_pair(self@, v, i);
            }
        }
        v
    }
}

/// The digit of a state, as a string of one character.
fn digit_str(bit: GeneBit) -> (s: &'static str)
    ensures
        s@ == seq![bit.digit()],
{
    proof {
        reveal_strlit("0");
        reveal_strlit("1");
        reveal_strlit("2");
    }
    let s = match bit {
        GeneBit::Zero => "0",
        GeneBit::One => "1",
        GeneBit::Three => "2",
    };
    assert(s@ =~= seq![bit.digit()]);
    s
}

/// Where the bits of `bit << shift` lie above those of `acc`, `|` adds.
proof fn lemma_or_is_add(acc: u32, bit: u32, shift: u32)
    by (bit_vector)
    requires
        shift <= 30,
        bit <= 3,
        acc < (1u32 << shift),
    ensures
        (acc | (bit << shift)) == acc + (bit << shift),
{
}

/// A gene of `n` positions packs into `2 * n` bits.
pub proof fn lemma_pack_bound(bits: Seq<GeneBit>)
    ensures
        pack(bits) < pow2(2 * bits.len()),
    decreases bits.len(),
{
    if bits.len() == 0 {
        lemma2_to64();
    } else {
        let low = bits.drop_last();
        let place = pow2(2 * low.len());
        lemma_pack_bound(low);
        lemma_pow2_unfold(2 * bits.len());
        lemma_pow2_unfold((2 * bits.len() - 1) as nat);
        assert(bits.last().genetic_value() * place <= 3 * place) by (nonlinear_arith)
            requires
                bits.last().genetic_value() <= 3,
        ;
    }
}

/// The low `2 * count` bits of a packed gene are its lowest `count`
/// positions, packed.
pub proof fn lemma_pack_take(bits: Seq<GeneBit>, count: nat)
    requires
        count <= bits.len(),
    ensures
        pack(bits) % pow2(2 * count) == pack(bits.take(count as int)),
    decreases bits.len(),
{
    let modulus = pow2(2 * count);
    lemma_pow2_pos(2 * count);
    if count == bits.len() {
        assert(bits.take(count as int) == bits);
        lemma_pack_bound(bits);
        lemma_small_mod(pack(bits), modulus);
    } else {
        let low = bits.drop_last();
        let above = (2 * (bits.len() - 1) - 2 * count) as nat;
        let top = bits.last().genetic_value();
        lemma_pack_take(low, count);
        assert(low.take(count as int) == bits.take(count as int));
        lemma_pow2_adds(2 * count, above);
        assert(top * pow2((2 * (bits.len() - 1)) as nat) == modulus * (pow2(above) * top))
            by (nonlinear_arith)
            requires
                pow2((2 * (bits.len() - 1)) as nat) == modulus * pow2(above),
        ;
        lemma_mod_multiples_vanish((pow2(above) * top) as int, pack(low) as int, modulus as int);
    }
}

/// Positions in the state `Zero` at the high end of a gene add nothing to
/// its packed value.
pub proof fn lemma_pack_zero_above(bits: Seq<GeneBit>, count: nat)
    requires
        count <= bits.len(),
        forall|i: int| count <= i < bits.len() ==> bits[i] == GeneBit::Zero,
    ensures
        pack(bits) == pack(bits.take(count as int)),
    decreases bits.len(),
{
    if count == bits.len() {
        assert(bits.take(count as int) == bits);
    } else {
        let low = bits.drop_last();
        lemma_pack_zero_above(low, count);
        assert(low.take(count as int) == bits.take(count as int));
        assert(bits.last() == GeneBit::Zero);
        assert(0 * pow2((2 * (bits.len() - 1)) as nat) == 0) by (nonlinear_arith);
    }
}

/// A packed gene is at least what any one of its positions adds.
pub proof fn lemma_pack_at_least(bits: Seq<GeneBit>, i: nat)
    requires
        i < bits.len(),
    ensures
        pack(bits) >= bits[i as int].genetic_value() * pow2(2 * i),
    decreases bits.len(),
{
    if i + 1 < bits.len() {
        lemma_pack_at_least(bits.drop_last(), i);
    }
}

/// The two bits at position `i` of a packed gene are the genetic value of
/// the state at position `i`.
pub proof fn lemma_pack_pair(bits: Seq<GeneBit>, i: nat)
    requires
        i < bits.len(),
    ensures
        pack(bits) / pow2(2 * i) % 4 == bits[i as int].genetic_value(),
{
    let place = pow2(2 * i);
    let below = bits.take(i as int);
    let upto = bits.take(i as int + 1);
    let pair = pack(bits) / place % 4;
    lemma_pow2_pos(2 * i);
    lemma2_to64();
    lemma_pow2_adds(2 * i, 2);
    lemma_pack_take(bits, i);
    lemma_pack_take(bits, i + 1);
    lemma_mod_breakdown(pack(bits) as int, place as int, 4);
    assert(upto.drop_last() == below);
    assert(upto.last() == bits[i as int]);
    assert(pair == bits[i as int].genetic_value()) by (nonlinear_arith)
        requires
            place * pair == bits[i as int].genetic_value() * place,
            place > 0,
    ;
}

/// The same in bits: shifting a packed value right by `2 * i` and keeping
/// two bits gives the genetic value of the state at position `i`.
pub proof fn lemma_value_pair(bits: Seq<GeneBit>, v: u32, i: u32)
    requires
        bits.len() <= 16,
        i < bits.len(),
        v == pack(bits),
    ensures
        (v >> (2 * i) as u32) & 3 == bits[i as int].genetic_value(),
{
    let shift: u32 = (2 * i) as u32;
    let shifted: u32 = v >> shift;
    lemma_pack_pair(bits, i as nat);
    lemma_u32_shr_is_div(v, shift);
    assert(shifted & 3 == shifted % 4) by (bit_vector);
}

/// Writing is the inverse of reading: a string that reads as a gene is what
/// that gene is written as, in either order.
pub proof fn lemma_parse_render(text: Seq<char>)
    requires
        parse(text) is Some,
    ensures
        render(parse(text)->0) == text,
        parse_human(text) is Some,
        render_human(parse_human(text)->0) == text,
{
    let bits = parse(text)->0;
    assert forall|i: int| 0 <= i < text.len() implies (#[trigger] bits[i]).digit() == text[i] by {
        assert(GeneBit::of_digit(text[i]) is Some);
    }
    assert(render(bits) =~= text);
    assert(render_human(bits.reverse()) =~= text);
}

/// Reading is the inverse of writing: what a gene is written as reads as
/// that gene, in either order.
pub proof fn lemma_render_parse(bits: Seq<GeneBit>)
    ensures
        parse(render(bits)) == Some(bits),
        parse_human(render_human(bits)) == Some(bits),
{
    let text = render(bits);
    assert forall|i: int| 0 <= i < text.len() implies GeneBit::of_digit(#[trigger] text[i])
        == Some(bits[i]) by {}
    assert(parse(text)->0 =~= bits);
    let back = render_human(bits);
    assert forall|i: int| 0 <= i < back.len() implies GeneBit::of_digit(#[trigger] back[i])
        == Some(bits[bits.len() - 1 - i]) by {}
    assert(parse(back)->0.reverse() =~= bits);
}

} // verus!
