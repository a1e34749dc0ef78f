use crate::model::Borrows;
use vstd::prelude::*;

verus! {

/// The bit of the borrow word that marks a mutable borrow. Below it the word counts immutable
/// borrows.
const HIGH_BIT: usize = !(usize::MAX >> 1);

/// `HIGH_BIT` is half the range of a `usize`, and it is set in a word exactly when the word is
/// in the upper half.
proof fn lemma_high_bit(word: usize)
    ensures
        HIGH_BIT == crate::model::capacity(),
        (word & HIGH_BIT != 0) <==> word >= HIGH_BIT,
{
    let max = usize::MAX;
    assert(max <= !0usize) by (bit_vector);
    assert(2 * (!(max >> 1)) == max + 1) by (bit_vector)
        requires
            max == !0usize,
    ;
    assert((word & !(max >> 1) != 0) <==> word >= !(max >> 1)) by (bit_vector)
        requires
            max == !0usize,
    ;
}

/// The word that counts the borrows of a cell.
///
/// Each method is one read-modify-write of the word, and nothing else touches it. The word alone
/// does not tell an abandoned attempt from a borrow, so the borrows that it stands for are kept
/// beside it.
pub struct BorrowWord {
    word: usize,
    borrows: Ghost<Borrows>,
}

impl View for BorrowWord {
    type V = Borrows;

    closed spec fn view(&self) -> Borrows {
        self.borrows@
    }
}

impl BorrowWord {
    /// The word is the one that its borrows add up to.
    pub closed spec fn wf(self) -> bool {
        &&& self.word == self.borrows@.word()
        &&& self.borrows@.valid()
    }

    /// The borrows that a word stands for do not exclude each other.
    pub proof fn lemma_valid(self)
        requires
            self.wf(),
        ensures
            self@.valid(),
    {
    }

    /// A word with no borrows.
    pub fn new() -> (borrow: BorrowWord)
        ensures
            borrow.wf(),
            borrow@ == Borrows::none(),
    {
        BorrowWord { word: 0, borrows: Ghost(Borrows::none()) }
    }

    /// The word itself.
    pub fn load(&self) -> (word: usize)
        requires
            self.wf(),
        ensures
            word == self@.word(),
            self@.valid(),
    {
        self.word
    }

    /// Adds one to the number of immutable borrows, and says whether that made a borrow.
    ///
    /// It did not if the word was in its upper half: then there is a mutable borrow, or as many
    /// immutable ones as there can be. The attempt stays counted in the word.
    pub fn add_reader(&mut self) -> (granted: bool)
        requires
            old(self).wf(),
            old(self)@.word() < usize::MAX,
        ensures
            final(self).wf(),
            final(self)@ == old(self)@.add_reader(),
            granted == old(self)@.admits_reader(),
    {
        let word: usize = self.word;
        proof {
            lemma_high_bit(word);
        }
        self.word = word + 1;
        self.borrows = Ghost(self.borrows@.add_reader());
        word & HIGH_BIT == 0
    }

    /// Claims the cell for a mutable borrow if its word is zero, and says whether it was.
    ///
    /// A word that is not zero is left as it is, so that a refused mutable borrow does not
    /// disturb the number of immutable ones.
    pub fn claim(&mut self) -> (claimed: bool)
        requires
            old(self).wf(),
        ensures
            final(self).wf(),
            final(self)@ == old(self)@.claim(),
            claimed == old(self)@.admits_writer(),
    {
        if self.word == 0 {
            proof {
                lemma_high_bit(0);
            }
            self.word = HIGH_BIT;
            self.borrows = Ghost(self.borrows@.claim());
            true
        } else {
            false
        }
    }

    /// Takes back one immutable borrow, and says whether it was the last thing counted.
    pub fn drop_reader(&mut self) -> (last: bool)
        requires
            old(self).wf(),
            old(self)@.readers > 0,
        ensures
            final(self).wf(),
            final(self)@ == old(self)@.drop_reader(),
            last == old(self)@.is_last(),
    {
        let word: usize = self.word;
        self.word = word - 1;
        self.borrows = Ghost(self.borrows@.drop_reader());
        word == 1
    }

    /// Takes back the mutable borrow, and with it every attempt that was counted meanwhile.
    pub fn drop_writer(&mut self)
        requires
            old(self).wf(),
            old(self)@.writers > 0,
        ensures
            final(self).wf(),
            final(self)@ == Borrows::none(),
    {
        self.word = 0;
        self.borrows = Ghost(Borrows::none());
    }
}

} // verus!
