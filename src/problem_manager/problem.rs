pub mod problems;

use vstd::prelude::*;

use crate::utils::bounded_bit_vec::{pushed, weighted_score, BoundedBitVec};

verus! {

/// Importance weights are stated in billionths: a weight of `IMPORTANCE_SCALE`
/// is an importance of one.
pub const IMPORTANCE_SCALE: u64 = 1_000_000_000;

/// What `str::trim` leaves of a text: leading and trailing white space removed.
pub uninterp spec fn trimmed(s: Seq<char>) -> Seq<char>;

/// Relies on `str::trim`: the text without its leading and trailing white
/// space, which depends on the text alone.
#[verifier::external_body]
fn trim_owned(s: &str) -> (r: String)
    ensures
        r@ == trimmed(s@),
{
    s.trim().to_string()
}

/// A flashcard: a prompt, the response it expects, a static importance and the
/// history of the answers given to it.
#[derive(Debug)]
pub struct Problem {
    id: usize,
    from: String,
    to: String,
    history: BoundedBitVec,
    p: u64,
}

impl Problem {
    /// The importance never exceeds one.
    #[verifier::type_invariant]
    pub closed spec fn inv(self) -> bool {
        self.p <= IMPORTANCE_SCALE
    }

    /// The identity, fixed when the corpus is loaded.
    pub closed spec fn id_spec(self) -> usize {
        self.id
    }

    /// The prompt.
    pub closed spec fn from_spec(self) -> Seq<char> {
        self.from@
    }

    /// The expected response.
    pub closed spec fn to_spec(self) -> Seq<char> {
        self.to@
    }

    /// The answer history.
    pub closed spec fn history_spec(self) -> BoundedBitVec {
        self.history
    }

    /// The importance, in billionths.
    pub closed spec fn p_spec(self) -> u64 {
        self.p
    }

    /// The weighted mastery, in 255ths.
    pub open spec fn mastery(self) -> nat {
        weighted_score(self.history_spec()@)
    }

    /// A card that was never shown, with importance `p` in billionths.
    pub fn new(id: usize, from: &str, to: &str, p: u64) -> (r: Self)
        requires
            p <= IMPORTANCE_SCALE,
        ensures
            r.id_spec() == id,
            r.from_spec() == from@,
            r.to_spec() == to@,
            r.p_spec() == p,
            r.history_spec()@ == Seq::<bool>::empty(),
    {
        Problem {
            id,
            from: from.to_owned(),
            to: to.to_owned(),
            history: BoundedBitVec::new(),
            p,
        }
    }

    pub fn get_id(&self) -> (r: usize)
        ensures
            r == self.id_spec(),
    {
        self.id
    }

    /// The prompt.
    pub fn get_from(&self) -> (r: &str)
        ensures
            r@ == self.from_spec(),
    {
        self.from.as_str()
    }

    /// The expected response.
    pub fn get_to(&self) -> (r: &str)
        ensures
            r@ == self.to_spec(),
    {
        self.to.as_str()
    }

    /// The answer history.
    pub fn get_history(&self) -> (r: BoundedBitVec)
        ensures
            r == self.history_spec(),
    {
        self.history
    }

    /// Whether the card has never been shown.
    pub fn is_new(&self) -> (r: bool)
        ensures
            r == (self.history_spec()@.len() == 0),
    {
        self.history.is_empty()
    }

    /// Whether `input`, trimmed, is exactly the expected response.
    pub fn check_answer(&self, input: &str) -> (r: bool)
        ensures
            r == (trimmed(input@) == self.to_spec()),
    {
        let t = trim_owned(input);
        t == self.to
    }

    /// Records the outcome of a round on this card and reports whether it
    /// counts as answered correctly.
    ///
    /// On a first exposure the card was only shown: `true` is recorded to
    /// mark it as seen, and the round counts as a miss. Otherwise `correct`
    /// is recorded and returned.
    pub fn record_outcome(&mut self, correct: bool) -> (r: bool)
        ensures
            final(self).id_spec() == old(self).id_spec(),
            final(self).from_spec() == old(self).from_spec(),
            final(self).to_spec() == old(self).to_spec(),
            final(self).p_spec() == old(self).p_spec(),
            old(self).history_spec()@.len() == 0 ==> !r && final(self).history_spec()@ == seq![
                true,
            ],
            old(self).history_spec()@.len() != 0 ==> r == correct && final(self).history_spec()@
                == pushed(old(self).history_spec()@, correct),
    {
        proof {
            use_type_invariant(&*self);
        }
        let mut h = self.history;
        if h.is_empty() {
            h.push(true);
            assert(pushed(Seq::<bool>::empty(), true) =~= seq![true]);
            self.history = h;
            false
        } else {
            h.push(correct);
            self.history = h;
            correct
        }
    }

    /// The weighted mastery that one more correct answer would give, in 255ths;
    /// the card is left unchanged.
    pub fn get_player_p_with_assumption(&self) -> (r: u8)
        ensures
            r as nat == weighted_score(pushed(self.history_spec()@, true)),
    {
        let mut new_history = self.history;
        new_history.push(true);
        new_history.to_p()
    }

    /// The weighted mastery, in 255ths.
    pub fn get_player_p(&self) -> (r: u8)
        ensures
            r as nat == self.mastery(),
    {
        self.history.to_p()
    }

    /// The importance, in billionths.
    pub fn get_p(&self) -> (r: u64)
        ensures
            r == self.p_spec(),
            r <= IMPORTANCE_SCALE,
    {
        proof {
            use_type_invariant(self);
        }
        self.p
    }
}

} // verus!
