//! The word-guessing game: a secret word, one letter guessed at a time, and a
//! limited number of wrong guesses.

use vstd::prelude::*;
use crate::chance::random_below;

verus! {

/// The number of wrong guesses after which the game is lost.
pub const NUM_INCORRECT_GUESSES: u32 = 5;

/// The mark shown for a letter not yet found.
pub const HIDDEN: char = '-';

/// The mark that takes the place of a letter once it is found.
pub const FOUND: char = '_';

/// A game in progress.
#[derive(Clone, Debug, PartialEq, Eq)]
pub struct Hangman {
    secret: Vec<char>,
    open: Vec<char>,
    shown: Vec<char>,
    guessed: Vec<char>,
    misses: u32,
}

/// What a game consists of.
pub struct GameView {
    /// The secret word.
    pub secret: Seq<char>,
    /// The secret word with every letter found so far replaced by [`FOUND`].
    pub open: Seq<char>,
    /// The word as the player sees it: found letters in their places,
    /// [`HIDDEN`] elsewhere.
    pub shown: Seq<char>,
    /// All letters guessed so far, in order.
    pub guessed: Seq<char>,
    /// The number of wrong guesses so far.
    pub misses: nat,
}

/// Place `i` is the first place of `letter` in `word`.
pub open spec fn first_place(word: Seq<char>, i: int, letter: char) -> bool {
    &&& 0 <= i < word.len()
    &&& word[i] == letter
    &&& forall|j: int| 0 <= j < i ==> word[j] != letter
}

impl GameView {
    /// The three words of a game have the same length, and the wrong guesses
    /// do not exceed the limit.
    pub open spec fn well_formed(self) -> bool {
        &&& self.open.len() == self.secret.len()
        &&& self.shown.len() == self.secret.len()
        &&& self.misses <= NUM_INCORRECT_GUESSES
    }

    /// The game at its start: nothing found, nothing guessed.
    pub open spec fn start(secret: Seq<char>) -> GameView {
        GameView {
            secret,
            open: secret,
            shown: Seq::new(secret.len(), |i: int| HIDDEN),
            guessed: Seq::empty(),
            misses: 0,
        }
    }

    /// The game is over: the wrong guesses are used up, or the letters
    /// guessed spell the secret word.
    pub open spec fn over(self) -> bool {
        self.misses >= NUM_INCORRECT_GUESSES || self.guessed == self.secret
    }

    /// The game is won if it ends before the wrong guesses are used up.
    pub open spec fn won(self) -> bool {
        self.misses < NUM_INCORRECT_GUESSES
    }

    /// The guess of `letter` finds a letter.
    pub open spec fn finds(self, letter: char) -> bool {
        exists|i: int| first_place(self.open, i, letter)
    }

    /// The game after the guess of `letter`. The letter is recorded. If it
    /// still stands open in the word, its first open place is shown and
    /// marked found; otherwise the guess counts as wrong.
    pub open spec fn after_guess(self, letter: char) -> GameView {
        if self.finds(letter) {
            let place = choose|i: int| first_place(self.open, i, letter);
            GameView {
                open: self.open.update(place, FOUND),
                shown: self.shown.update(place, letter),
                guessed: self.guessed.push(letter),
                ..self
            }
        } else {
            GameView { guessed: self.guessed.push(letter), misses: self.misses + 1, ..self }
        }
    }
}

impl View for Hangman {
    type V = GameView;

    closed spec fn view(&self) -> GameView {
        GameView {
            secret: self.secret@,
            open: self.open@,
            shown: self.shown@,
            guessed: self.guessed@,
            misses: self.misses as nat,
        }
    }
}

/// Picks the place of a word in a list of `count` words at random.
pub fn pick_a_random_word(count: usize) -> (r: usize)
    requires
        count > 0,
    ensures
        r < count,
{
    random_below(count)
}

fn same(a: &Vec<char>, b: &Vec<char>) -> (r: bool)
    ensures
        r == (a@ == b@),
{
    if a.len() != b.len() {
        return false;
    }
    let mut i: usize = 0;
    while i < a.len()
        invariant
            i <= a@.len(),
            a@.len() == b@.len(),
            forall|k: int| 0 <= k < i ==> a@[k] == b@[k],
        decreases a@.len() - i,
    {
        if a[i] != b[i] {
            return false;
        }
        i += 1;
    }
    assert(a@ =~= b@);
    true
}

impl Hangman {
    /// Starts a game on the secret word.
    pub fn new(secret: Vec<char>) -> (r: Hangman)
        ensures
            r@ == GameView::start(secret@),
            r@.well_formed(),
    {
        let mut open: Vec<char> = Vec::new();
        let mut shown: Vec<char> = Vec::new();
        let mut i: usize = 0;
        while i < secret.len()
            invariant
                i <= secret@.len(),
                open@ == secret@.take(i as int),
                shown@.len() == i,
                forall|k: int| 0 <= k < i ==> shown@[k] == HIDDEN,
            decreases secret@.len() - i,
        {
            open.push(secret[i]);
            shown.push(HIDDEN);
            assert(open@ =~= secret@.take(i + 1));
            i += 1;
        }
        assert(open@ =~= secret@);
        assert(shown@ =~= Seq::new(secret@.len(), |i: int| HIDDEN));
        Hangman { secret, open, shown, guessed: Vec::new(), misses: 0 }
    }

    /// The word as the player sees it.
    pub fn shown(&self) -> (r: &Vec<char>)
        ensures
            r@ == self@.shown,
    {
        &self.shown
    }

    /// All letters guessed so far.
    pub fn guessed(&self) -> (r: &Vec<char>)
        ensures
            r@ == self@.guessed,
    {
        &self.guessed
    }

    /// The secret word.
    pub fn secret(&self) -> (r: &Vec<char>)
        ensures
            r@ == self@.secret,
    {
        &self.secret
    }

    /// The number of wrong guesses the player can still afford.
    pub fn guesses_left(&self) -> (r: u32)
        requires
            self@.well_formed(),
        ensures
            r == NUM_INCORRECT_GUESSES - self@.misses,
    {
        NUM_INCORRECT_GUESSES - self.misses
    }

    /// Tells whether the game is over.
    pub fn is_over(&self) -> (r: bool)
        ensures
            r == self@.over(),
    {
        self.misses >= NUM_INCORRECT_GUESSES || same(&self.guessed, &self.secret)
    }

    /// Tells whether the game, once over, is won.
    pub fn has_won(&self) -> (r: bool)
        ensures
            r == self@.won(),
    {
        self.misses < NUM_INCORRECT_GUESSES
    }

    /// Takes the guess of `letter` and tells whether it found a letter.
    pub fn guess(&mut self, letter: char) -> (r: bool)
        requires
            old(self)@.well_formed(),
            !old(self)@.over(),
        ensures
            final(self)@ == old(self)@.after_guess(letter),
            final(self)@.well_formed(),
            r == old(self)@.finds(letter),
    {
        self.guessed.push(letter);
        let mut i: usize = 0;
        while i < self.open.len()
            invariant
                i <= self.open@.len(),
                self.open@ == old(self).open@,
                self.shown@ == old(self).shown@,
                self.secret@ == old(self).secret@,
                self.misses == old(self).misses,
                self.guessed@ == old(self).guessed@.push(letter),
                old(self)@.well_formed(),
                forall|j: int| 0 <= j < i ==> self.open@[j] != letter,
            decreases self.open@.len() - i,
        {
            if self.open[i] == letter {
                proof {
                    assert(first_place(old(self)@.open, i as int, letter));
                    let c = choose|c: int| first_place(old(self)@.open, c, letter);
                    assert(c == i) by {
                        if c < i {
                            assert(self.open@[c] != letter);
                        }
                    }
                }
                self.open.set(i, FOUND);
                self.shown.set(i, letter);
                return true;
            }
            i += 1;
        }
        proof {
            assert forall|c: int| !first_place(old(self)@.open, c, letter) by {
                if 0 <= c < self.open@.len() {
                    assert(self.open@[c] != letter);
                }
            }
        }
        self.misses = self.misses + 1;
        false
    }
}

} // verus!
