use vstd::arithmetic::power2::{lemma2_to64, lemma_pow2_unfold, pow2};
use vstd::prelude::*;

use crate::utils::ToPercent;

verus! {

/// Number of outcomes a history keeps.
pub const CAPACITY: u8 = 8;

/// Whether bit `i` of `data` is set.
pub open spec fn bit(data: u8, i: int) -> bool {
    (data >> (i as u8)) & 1u8 == 1u8
}

/// Place value of recency slot `i`: the most recent slot weighs `2^7`, each
/// older slot half as much.
pub open spec fn slot_weight(i: int) -> nat {
    pow2((7 - i) as nat)
}

/// Recency-weighted score of the first `n` slots of `s`.
pub open spec fn weighted_upto(s: Seq<bool>, n: int) -> nat
    decreases n,
{
    if n <= 0 {
        0
    } else {
        weighted_upto(s, n - 1) + if s[n - 1] {
            slot_weight(n - 1)
        } else {
            0
        }
    }
}

/// Recency-weighted score of a history, out of 255: the slots read as the bits
/// of a byte whose most significant bit is the most recent outcome.
pub open spec fn weighted_score(s: Seq<bool>) -> nat {
    weighted_upto(s, s.len() as int)
}

/// Number of `true` outcomes among the first `n` slots of `s`.
pub open spec fn count_upto(s: Seq<bool>, n: int) -> nat
    decreases n,
{
    if n <= 0 {
        0
    } else {
        count_upto(s, n - 1) + if s[n - 1] {
            1nat
        } else {
            0nat
        }
    }
}

/// Unweighted score of a history, out of 8: the number of `true` outcomes.
pub open spec fn unweighted_score(s: Seq<bool>) -> nat {
    count_upto(s, s.len() as int)
}

/// The history that results from recording `value` on history `s`: `value`
/// becomes the most recent outcome and only the newest eight are kept.
pub open spec fn pushed(s: Seq<bool>, value: bool) -> Seq<bool> {
    let t = seq![value] + s;
    if t.len() > CAPACITY as nat {
        t.take(CAPACITY as int)
    } else {
        t
    }
}

/// The history that results from recording each of `ps` on `s`, in order.
pub open spec fn pushed_all(s: Seq<bool>, ps: Seq<bool>) -> Seq<bool>
    decreases ps.len(),
{
    if ps.len() == 0 {
        s
    } else {
        pushed(pushed_all(s, ps.drop_last()), ps.last())
    }
}

/// `ps` newest first.
pub open spec fn newest_first(ps: Seq<bool>) -> Seq<bool> {
    Seq::new(ps.len(), |i: int| ps[ps.len() - 1 - i])
}

/// The eight slots of a history, `false` where no outcome was recorded.
pub open spec fn slots(s: Seq<bool>) -> Seq<bool> {
    Seq::new(8, |i: int| i < s.len() && s[i])
}

/// The text that std's `Debug` formatting gives for an array of booleans.
pub uninterp spec fn debug_text(s: Seq<bool>) -> Seq<char>;

/// Relies on std's `Debug` impl for `[bool; 8]` (through `format!`): the text
/// depends on the eight values alone.
#[verifier::external_body]
fn debug_of_slots(a: [bool; 8]) -> (r: String)
    ensures
        r@ == debug_text(a@),
{
    format!("{:?}", a)
}

/// Recording a run of outcomes on a history of at most eight leaves the newest
/// of `ps`, then the old outcomes, cut to eight.
proof fn lemma_pushed_all(s: Seq<bool>, ps: Seq<bool>)
    requires
        s.len() <= CAPACITY,
    ensures
        pushed_all(s, ps) == (newest_first(ps) + s).take(
            if ps.len() + s.len() <= CAPACITY {
                (ps.len() + s.len()) as int
            } else {
                CAPACITY as int
            },
        ),
    decreases ps.len(),
{
    if ps.len() == 0 {
        assert((newest_first(ps) + s).take(s.len() as int) =~= s);
    } else {
        let q = ps.drop_last();
        lemma_pushed_all(s, q);
        let t = pushed_all(s, q);
        let m: int = if ps.len() + s.len() <= CAPACITY {
            (ps.len() + s.len()) as int
        } else {
            CAPACITY as int
        };
        assert(pushed_all(s, ps) =~= (newest_first(ps) + s).take(m));
    }
}

/// A history never holds more than eight outcomes, and once eight or more
/// outcomes have been recorded, only the newest eight of them decide its
/// contents and so its mastery: what it held before no longer matters.
pub proof fn lemma_only_recent_outcomes_count(s1: Seq<bool>, s2: Seq<bool>, ps: Seq<bool>)
    requires
        s1.len() <= CAPACITY,
        s2.len() <= CAPACITY,
    ensures
        pushed_all(s1, ps).len() <= CAPACITY,
        ps.len() >= CAPACITY ==> pushed_all(s1, ps) == pushed_all(s2, ps),
        ps.len() >= CAPACITY ==> pushed_all(s1, ps) == newest_first(ps).take(CAPACITY as int),
        ps.len() >= CAPACITY ==> weighted_score(pushed_all(s1, ps)) == weighted_score(
            pushed_all(s2, ps),
        ),
        ps.len() >= CAPACITY ==> unweighted_score(pushed_all(s1, ps)) == unweighted_score(
            pushed_all(s2, ps),
        ),
{
    lemma_pushed_all(s1, ps);
    lemma_pushed_all(s2, ps);
    if ps.len() >= CAPACITY {
        assert(pushed_all(s1, ps) =~= newest_first(ps).take(CAPACITY as int));
        assert(pushed_all(s2, ps) =~= newest_first(ps).take(CAPACITY as int));
    }
}

/// Fixed-capacity record of the most recent answer outcomes, most recent first.
///
/// Bit `i` of `data` holds the outcome recorded `i` pushes ago; `len` counts
/// the outcomes held, at most eight. An empty history means "never attempted".
#[derive(Debug, Clone, Copy, PartialEq, Eq)]
pub struct BoundedBitVec {
    data: u8,
    len: u8,
}

impl View for BoundedBitVec {
    type V = Seq<bool>;

    /// The outcomes held, index 0 the most recent.
    closed spec fn view(&self) -> Seq<bool> {
        Seq::new(
            if self.len <= CAPACITY {
                self.len as nat
            } else {
                CAPACITY as nat
            },
            |i: int| bit(self.data, i),
        )
    }
}

impl BoundedBitVec {
    /// At most eight outcomes, and no bit set beyond them.
    #[verifier::type_invariant]
    pub closed spec fn inv(self) -> bool {
        &&& self.len <= CAPACITY
        &&& forall|i: int| self.len <= i < 8 ==> !bit(self.data, i)
    }

    /// A history never holds more than eight outcomes.
    pub proof fn lemma_len_bounded(self)
        ensures
            self@.len() <= CAPACITY,
    {
    }

    /// The full history whose eight outcomes are the bits of `v`.
    pub closed spec fn from_byte(v: u8) -> Self {
        BoundedBitVec { data: v, len: CAPACITY }
    }

    /// What the history built from a byte holds.
    pub proof fn lemma_from_byte(v: u8)
        ensures
            Self::from_byte(v).bits() == v,
            Self::from_byte(v)@ == Seq::new(8, |i: int| bit(v, i)),
    {
        assert(Self::from_byte(v)@ =~= Seq::new(8, |i: int| bit(v, i)));
    }

    /// The raw byte: bit `i` is the outcome recorded `i` pushes ago.
    pub closed spec fn bits(self) -> u8 {
        self.data
    }

    pub fn new() -> (r: Self)
        ensures
            r@ == Seq::<bool>::empty(),
            r.bits() == 0,
    {
        assert forall|i: int| 0 <= i < 8 implies !bit(0u8, i) by {
            let k = i as u8;
            assert((0u8 >> k) & 1u8 != 1u8) by (bit_vector);
        }
        let r = BoundedBitVec { data: 0, len: 0 };
        assert(r@ =~= Seq::<bool>::empty());
        r
    }

    /// Records `value` as the most recent outcome, dropping the oldest one when
    /// eight are already held.
    pub fn push(&mut self, value: bool)
        ensures
            final(self)@ == pushed(old(self)@, value),
            final(self).bits() == (if value {
                ((old(self).bits() as int * 2) % 256 + 1) as u8
            } else {
                ((old(self).bits() as int * 2) % 256) as u8
            }),
    {
        proof {
            use_type_invariant(&*self);
        }
        let d = self.data;
        let old_len = self.len;
        let nd: u8 = if value {
            (d << 1u8) | 1u8
        } else {
            d << 1u8
        };
        let nl: u8 = if old_len < CAPACITY {
            old_len + 1
        } else {
            CAPACITY
        };
        proof {
            assert(bit(nd, 0) == value) by {
                assert((((d << 1u8) | 1u8) >> 0u8) & 1u8 == 1u8) by (bit_vector);
                assert(((d << 1u8) >> 0u8) & 1u8 != 1u8) by (bit_vector);
            }
            assert forall|i: int| 1 <= i < 8 implies bit(nd, i) == bit(d, i - 1) by {
                let k = i as u8;
                assert(1 <= k < 8 ==> ((((d << 1u8) | 1u8) >> k) & 1u8 == 1u8) == (((d >> (
                (k - 1u8) as u8)) & 1u8) == 1u8)) by (bit_vector);
                assert(1 <= k < 8 ==> (((d << 1u8) >> k) & 1u8 == 1u8) == (((d >> ((k
                - 1u8) as u8)) & 1u8) == 1u8)) by (bit_vector);
            }
            if value {
                assert(nd as int == (d as int * 2) % 256 + 1) by (bit_vector)
                    requires
                        nd == (d << 1u8) | 1u8,
                ;
            } else {
                assert(nd as int == (d as int * 2) % 256) by (bit_vector)
                    requires
                        nd == d << 1u8,
                ;
            }
        }
        *self = BoundedBitVec { data: nd, len: nl };
        assert(final(self)@ =~= pushed(old(self)@, value));
    }

    /// The outcome recorded `index` pushes ago; `false` for a slot never filled.
    pub fn get(&self, index: usize) -> (r: bool)
        requires
            index < 8,
        ensures
            r == (index < self@.len() && self@[index as int]),
    {
        proof {
            use_type_invariant(self);
        }
        let k = index as u8;
        let r = (self.data >> k) & 1u8 == 1u8;
        assert(r == bit(self.data, index as int));
        r
    }

    /// The eight slots, most recent first, `false` where nothing was recorded.
    pub fn to_bools(&self) -> (r: [bool; 8])
        ensures
            r@ == slots(self@),
    {
        let r = [
            self.get(0),
            self.get(1),
            self.get(2),
            self.get(3),
            self.get(4),
            self.get(5),
            self.get(6),
            self.get(7),
        ];
        assert(r@ =~= slots(self@));
        r
    }

    /// The eight slots as a list, such as `[true, false, false, false, false,
    /// false, false, false]` after a single correct answer.
    pub fn to_string(&self) -> (r: String)
        ensures
            r@ == debug_text(slots(self@)),
    {
        debug_of_slots(self.to_bools())
    }

    /// Whether no outcome has been recorded yet.
    pub fn is_empty(&self) -> (r: bool)
        ensures
            r == (self@.len() == 0),
    {
        self.len == 0
    }

    /// Recency-weighted mastery in 255ths: the outcomes read as a byte whose
    /// most significant bit is the most recent one. The mastery estimate is
    /// this value divided by 255.
    pub fn to_p(&self) -> (r: u8)
        ensures
            r as nat == weighted_score(self@),
    {
        proof {
            use_type_invariant(self);
            lemma2_to64();
        }
        let n = self.len as usize;
        let mut acc: u16 = 0;
        let mut w2: u16 = 256;
        let mut i: usize = 0;
        while i < n
            invariant
                n == self@.len(),
                n <= 8,
                i <= n,
                w2 as nat == pow2((8 - i) as nat),
                acc + w2 <= 256,
                acc as nat == weighted_upto(self@, i as int),
            decreases n - i,
        {
            proof {
                lemma_pow2_unfold((8 - i) as nat);
            }
            let half: u16 = w2 / 2;
            if self.get(i) {
                acc = acc + half;
            }
            w2 = half;
            i = i + 1;
        }
        proof {
            vstd::arithmetic::power2::lemma_pow2_pos((8 - i) as nat);
        }
        acc as u8
    }

    /// Unweighted mastery in eighths: the number of `true` outcomes held.
    pub fn to_p_unweighted(&self) -> (r: u8)
        ensures
            r as nat == unweighted_score(self@),
    {
        proof {
            use_type_invariant(self);
        }
        let n = self.len as usize;
        let mut acc: u8 = 0;
        let mut i: usize = 0;
        while i < n
            invariant
                n == self@.len(),
                n <= 8,
                i <= n,
                acc <= i,
                acc as nat == count_upto(self@, i as int),
            decreases n - i,
        {
            if self.get(i) {
                acc = acc + 1;
            }
            i = i + 1;
        }
        acc
    }
}

} // verus!

verus! {

/// A history holding the eight bits of a byte.
impl From<u8> for BoundedBitVec {
    fn from(value: u8) -> (r: Self) {
        BoundedBitVec { data: value, len: CAPACITY }
    }
}

impl vstd::std_specs::convert::FromSpecImpl<u8> for BoundedBitVec {
    open spec fn obeys_from_spec() -> bool {
        true
    }

    open spec fn from_spec(v: u8) -> Self {
        BoundedBitVec::from_byte(v)
    }
}

/// The raw byte of a history.
impl From<BoundedBitVec> for u8 {
    fn from(value: BoundedBitVec) -> (r: u8) {
        value.data
    }
}

impl vstd::std_specs::convert::FromSpecImpl<BoundedBitVec> for u8 {
    open spec fn obeys_from_spec() -> bool {
        true
    }

    open spec fn from_spec(v: BoundedBitVec) -> u8 {
        v.bits()
    }
}

} // verus!

verus! {

/// The weighted mastery of a history in percent.
impl ToPercent for BoundedBitVec {
    open spec fn percent(&self) -> nat {
        weighted_score(self@) * 100 / 255
    }

    fn to_percent(&self) -> (r: u8) {
        let score = self.to_p() as u32;
        let r = score * 100 / 255;
        assert(r <= 100) by (nonlinear_arith)
            requires
                r == score * 100 / 255,
                score <= 255,
        ;
        r as u8
    }
}

} // verus!
