pub mod problem;

use rand::rngs::ThreadRng;
use rand::seq::SliceRandom;
use vstd::prelude::*;

use self::problem::{Problem, IMPORTANCE_SCALE};

verus! {

#[verifier::external_type_specification]
#[verifier::external_body]
pub struct ExThreadRng(ThreadRng);

/// Relies on rand's `SliceRandom::shuffle`, a Fisher-Yates shuffle made of
/// swaps: the cards come back in some order, none lost or repeated.
#[verifier::external_body]
fn shuffle_problems(problems: &mut Vec<Problem>, rng: &mut ThreadRng)
    ensures
        final(problems)@.len() == old(problems)@.len(),
        final(problems)@.to_multiset() == old(problems)@.to_multiset(),
{
    problems.shuffle(rng)
}

/// `s` with the element at `from` taken out and put back at `to`; the others
/// keep their relative order.
pub open spec fn moved<T>(s: Seq<T>, from: int, to: int) -> Seq<T> {
    s.remove(from).insert(to, s[from])
}

/// Whether some card after position `i` has a strictly greater mastery than
/// the card at `i`.
pub open spec fn has_stronger_after(s: Seq<Problem>, i: int) -> bool {
    exists|j: int| i < j < s.len() && s[j].mastery() > s[i].mastery()
}

/// Where a correctly answered card at position `i` goes: just before the first
/// later card of strictly greater mastery, or, when there is none, one place
/// on (or nowhere, when it is already last).
pub open spec fn correct_target(s: Seq<Problem>, i: int, r: int) -> bool {
    if has_stronger_after(s, i) {
        &&& i <= r
        &&& r + 1 < s.len()
        &&& forall|j: int| i < j <= r ==> s[j].mastery() <= s[i].mastery()
        &&& s[r + 1].mastery() > s[i].mastery()
    } else {
        r == if i + 1 < s.len() {
            i + 1
        } else {
            i
        }
    }
}

/// Whether a drawn position `i` may be shown after the card with identity
/// `last`: never the same card twice in a row, unless there is only one.
pub open spec fn accepts(s: Seq<Problem>, last: Option<usize>, i: int) -> bool {
    last != Some(s[i].id_spec()) || s.len() == 1
}

/// Sum of importance times weighted mastery over the cards `s[0..n]`, in units
/// of one `IMPORTANCE_SCALE * 255`th.
pub open spec fn total_upto(s: Seq<Problem>, n: int) -> nat
    decreases n,
{
    if n <= 0 {
        0
    } else {
        total_upto(s, n - 1) + (s[n - 1].p_spec() as nat) * s[n - 1].mastery()
    }
}

/// Moving a card keeps the set of cards: the sequence after a reposition is a
/// permutation of the one before, with nothing lost or repeated.
pub proof fn lemma_reposition_keeps_cards<T>(s: Seq<T>, from: int, to: int)
    requires
        0 <= from < s.len(),
        0 <= to < s.len(),
    ensures
        moved(s, from, to).len() == s.len(),
        moved(s, from, to).to_multiset() == s.to_multiset(),
{
    let x = s[from];
    let t = s.remove(from);
    vstd::seq_lib::to_multiset_remove(s, from);
    vstd::seq_lib::to_multiset_insert(t, to, x);
    assert(s.to_multiset().remove(x).insert(x) =~= s.to_multiset()) by {
        vstd::seq_lib::to_multiset_contains(s, x);
        assert(s.contains(x));
    }
}

/// After a correct answer the card never moves past a card of strictly greater
/// mastery: every card it passes is at most as strong as it is, and when a
/// stronger card follows it, it comes to rest directly in front of the first
/// one. Cards before its old place and after its new place do not move.
pub proof fn lemma_correct_reposition_passes_no_stronger(s: Seq<Problem>, i: int, r: int)
    requires
        0 <= i < s.len(),
        correct_target(s, i, r),
    ensures
        i <= r < s.len(),
        moved(s, i, r)[r] == s[i],
        forall|j: int| i <= j < r ==> #[trigger] moved(s, i, r)[j].mastery() <= s[i].mastery(),
        has_stronger_after(s, i) ==> moved(s, i, r)[r + 1].mastery() > s[i].mastery(),
        forall|j: int| 0 <= j < i ==> #[trigger] moved(s, i, r)[j] == s[j],
        forall|j: int| r < j < s.len() ==> #[trigger] moved(s, i, r)[j] == s[j],
{
    let t = moved(s, i, r);
    assert forall|j: int| i <= j < r implies #[trigger] t[j].mastery() <= s[i].mastery() by {
        assert(t[j] == s[j + 1]);
    }
}

/// After a miss the card stands at the front, and the cards that were in front
/// of it follow it in their old order.
pub proof fn lemma_missed_card_goes_first(s: Seq<Problem>, i: int)
    requires
        0 <= i < s.len(),
    ensures
        moved(s, i, 0)[0] == s[i],
        forall|j: int| 0 <= j < i ==> #[trigger] moved(s, i, 0)[j + 1] == s[j],
        forall|j: int| i < j < s.len() ==> #[trigger] moved(s, i, 0)[j] == s[j],
{
}

/// With two or more cards, two rounds in a row never show the same card: once
/// a position is taken its card is the last shown, and the next position taken
/// holds another card, however the cards were reordered between the rounds.
pub proof fn lemma_no_immediate_repeat(
    s1: Seq<Problem>,
    last: Option<usize>,
    i: int,
    s2: Seq<Problem>,
    j: int,
)
    requires
        0 <= i < s1.len(),
        0 <= j < s2.len(),
        s2.len() >= 2,
        accepts(s1, last, i),
        accepts(s2, Some(s1[i].id_spec()), j),
    ensures
        s2[j].id_spec() != s1[i].id_spec(),
{
}

/// Owns the sequence of cards, weakest near the front, and the identity of
/// the card shown last.
#[derive(Debug)]
pub struct ProblemManager {
    problems: Vec<Problem>,
    last_problem_id: Option<usize>,
}

impl ProblemManager {
    /// The cards in their current order.
    pub closed spec fn problems_spec(self) -> Seq<Problem> {
        self.problems@
    }

    /// The identity of the card shown last, if any.
    pub closed spec fn last_spec(self) -> Option<usize> {
        self.last_problem_id
    }

    /// A manager over `problems`, in their order or, when `shuffle` is set, in
    /// an order drawn from `rng`.
    pub fn new(problems: Vec<Problem>, shuffle: bool, rng: &mut ThreadRng) -> (r: Self)
        ensures
            !shuffle ==> r.problems_spec() == problems@,
            r.problems_spec().len() == problems@.len(),
            r.problems_spec().to_multiset() == problems@.to_multiset(),
            r.last_spec() == None::<usize>,
    {
        let mut problems = problems;
        if shuffle {
            shuffle_problems(&mut problems, rng);
        }
        ProblemManager { problems, last_problem_id: None }
    }

    pub fn len(&self) -> (r: usize)
        ensures
            r == self.problems_spec().len(),
    {
        self.problems.len()
    }

    /// The card at position `index`.
    pub fn get_problem(&self, index: usize) -> (r: &Problem)
        requires
            index < self.problems_spec().len(),
        ensures
            *r == self.problems_spec()[index as int],
    {
        &self.problems[index]
    }

    /// Decides on a drawn position: it is taken, and its card becomes the last
    /// shown, unless that card was shown in the previous round and others are
    /// left; then the caller draws again.
    pub fn get_relevant_problem_index(&mut self, index: usize) -> (r: bool)
        requires
            index < old(self).problems_spec().len(),
        ensures
            r == accepts(old(self).problems_spec(), old(self).last_spec(), index as int),
            final(self).problems_spec() == old(self).problems_spec(),
            r ==> final(self).last_spec() == Some(old(self).problems_spec()[index as int].id_spec()),
            !r ==> final(self).last_spec() == old(self).last_spec(),
    {
        let id = self.problems[index].get_id();
        let repeat = match self.last_problem_id {
            Some(last) => last == id,
            None => false,
        };
        if repeat && self.problems.len() > 1 {
            false
        } else {
            self.last_problem_id = Some(id);
            true
        }
    }

    /// Moves the card at `index` after an answer and returns its new position.
    ///
    /// A correct answer moves it just before the first later card of strictly
    /// greater mastery, or one place on when there is none; a miss moves it to
    /// the front. The other cards keep their relative order.
    pub fn reposition(&mut self, index: usize, correct: bool) -> (r: usize)
        requires
            index < old(self).problems_spec().len(),
        ensures
            r < old(self).problems_spec().len(),
            final(self).problems_spec() == moved(old(self).problems_spec(), index as int, r as int),
            final(self).last_spec() == old(self).last_spec(),
            correct ==> correct_target(old(self).problems_spec(), index as int, r as int),
            !correct ==> r == 0,
    {
        let ghost s = self.problems@;
        let n = self.problems.len();
        let target: usize = if correct {
            let m = self.problems[index].get_player_p();
            let mut j: usize = index + 1;
            while j < n && self.problems[j].get_player_p() <= m
                invariant
                    s == self.problems@,
                    n == s.len(),
                    index < j <= n,
                    m as nat == s[index as int].mastery(),
                    forall|k: int| index < k < j ==> s[k].mastery() <= s[index as int].mastery(),
                decreases n - j,
            {
                j = j + 1;
            }
            if j < n {
                j - 1
            } else if index + 1 < n {
                assert(!has_stronger_after(s, index as int));
                index + 1
            } else {
                assert(!has_stronger_after(s, index as int));
                index
            }
        } else {
            0
        };
        let p = self.problems.remove(index);
        self.problems.insert(target, p);
        assert(self.problems@ =~= moved(s, index as int, target as int));
        target
    }

    /// Records the outcome of a round on the card at `index`, under the first
    /// exposure rule of `Problem::record_outcome`, and moves the card by what
    /// was recorded. Returns whether the round counted as correct and the
    /// card's new position.
    pub fn record_answer(&mut self, index: usize, correct: bool) -> (r: (bool, usize))
        requires
            index < old(self).problems_spec().len(),
        ensures
            ({
                let s = old(self).problems_spec();
                let p = s[index as int];
                let q = final(self).problems_spec()[r.1 as int];
                &&& r.1 < s.len()
                &&& q.id_spec() == p.id_spec()
                &&& q.from_spec() == p.from_spec()
                &&& q.to_spec() == p.to_spec()
                &&& q.p_spec() == p.p_spec()
                &&& p.history_spec()@.len() == 0 ==> !r.0 && q.history_spec()@ == seq![true]
                &&& p.history_spec()@.len() != 0 ==> r.0 == correct && q.history_spec()@
                    == crate::utils::bounded_bit_vec::pushed(p.history_spec()@, correct)
                &&& final(self).problems_spec() == moved(s.update(index as int, q), index as int, r.1 as int)
                &&& r.0 ==> correct_target(s.update(index as int, q), index as int, r.1 as int)
                &&& !r.0 ==> r.1 == 0
            }),
            final(self).last_spec() == old(self).last_spec(),
    {
        let mut p = self.problems.remove(index);
        let outcome = p.record_outcome(correct);
        self.problems.insert(index, p);
        let ghost mid = self.problems@;
        let to = self.reposition(index, outcome);
        proof {
            assert(mid =~= old(self).problems_spec().update(index as int, mid[index as int]));
            assert(self.problems@[to as int] == mid[index as int]);
        }
        (outcome, to)
    }

    /// Sum over the cards of importance times weighted mastery, in units of
    /// one `IMPORTANCE_SCALE * 255`th.
    pub fn total_p(&self) -> (r: u128)
        ensures
            r as nat == total_upto(self.problems_spec(), self.problems_spec().len() as int),
    {
        let n = self.problems.len();
        let mut acc: u128 = 0;
        let mut i: usize = 0;
        while i < n
            invariant
                n == self.problems@.len(),
                i <= n,
                acc as nat == total_upto(self.problems@, i as int),
                acc <= i * (IMPORTANCE_SCALE * 255),
            decreases n - i,
        {
            let p = self.problems[i].get_p() as u128;
            let m = self.problems[i].get_player_p() as u128;
            assert(p * m <= IMPORTANCE_SCALE * 255) by (nonlinear_arith)
                requires
                    p <= IMPORTANCE_SCALE,
                    m <= 255,
            ;
            assert(acc + p * m <= (i + 1) * (IMPORTANCE_SCALE * 255)) by (nonlinear_arith)
                requires
                    acc <= i * (IMPORTANCE_SCALE * 255),
                    p * m <= IMPORTANCE_SCALE * 255,
            ;
            assert((i + 1) * (IMPORTANCE_SCALE * 255) <= u128::MAX) by (nonlinear_arith)
                requires
                    i < n,
                    n <= usize::MAX,
            ;
            acc = acc + p * m;
            i = i + 1;
        }
        acc
    }
}

} // verus!
