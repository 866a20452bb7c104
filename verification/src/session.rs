//! A game session: the secret, the conditions still unseen and those shown,
//! and what each guess changes.

use vstd::prelude::*;
use crate::condition::holds;
use crate::condition::Condition;
use crate::describe::describe;
use crate::instantiate::can_instantiate;
use crate::instantiate::instantiate_all;
use crate::instantiate::instantiated;
use crate::instantiate::is_template_pool;
use crate::instantiate::lemma_drawn_secret_can_instantiate;
use crate::instantiate::template_pool;
use crate::parse::guess_value;
use crate::parse::parse_guess;
use crate::progress::all_hold;
use crate::progress::all_met;
use crate::progress::kept;
use crate::progress::lemma_last_failing;
use crate::progress::lemma_members_of_partition;
use crate::progress::lemma_partition_keeps_members;
use crate::progress::lemma_partition_len;
use crate::progress::put_failing_first;
use crate::progress::revealed;
use crate::progress::show_more;
use crate::progress::stable_partition;
use crate::random::draw_in_range;
use crate::random::shuffle;

verus! {

/// A session as plain values.
pub struct SessionView {
    /// The number to be found.
    pub secret: int,
    /// The conditions not yet shown; the last one is revealed first.
    pub unseen: Seq<Condition>,
    /// The conditions shown, in the order in which they are shown.
    pub seen: Seq<Condition>,
    /// The last guess that was understood, if there was one.
    pub current_guess: Option<int>,
}

impl SessionView {
    /// The guess that the shown conditions are judged by: the last one
    /// understood, or 0 before there was one.
    pub open spec fn judged_guess(self) -> int {
        match self.current_guess {
            Some(g) => g,
            None => 0,
        }
    }

    /// The session after the guess `g`: what `g` can reveal is shown, and the
    /// shown conditions that `g` fails come first.
    pub open spec fn after_guess(self, g: int) -> SessionView {
        let (still_unseen, shown) = revealed(self.unseen, self.seen, g);
        SessionView {
            secret: self.secret,
            unseen: still_unseen,
            seen: stable_partition(shown, g),
            current_guess: Some(g),
        }
    }

    /// The session after the player typed `text`: a text that denotes no
    /// guess changes nothing.
    pub open spec fn after_text(self, text: Seq<char>) -> SessionView {
        match guess_value(text) {
            Some(g) => self.after_guess(g),
            None => self,
        }
    }

    /// The session after the guesses `gs`, made in their order.
    pub open spec fn after_guesses(self, gs: Seq<int>) -> SessionView
        decreases gs.len(),
    {
        if gs.len() == 0 {
            self
        } else {
            self.after_guesses(gs.drop_last()).after_guess(gs.last())
        }
    }

    /// The game is won: nothing is unseen and the judged guess meets every
    /// shown condition.
    pub open spec fn won(self) -> bool {
        self.unseen.len() == 0 && all_hold(self.seen, self.judged_guess())
    }

    /// The secret meets every condition of the session, unseen or shown.
    pub open spec fn concrete(self) -> bool {
        all_hold(self.unseen, self.secret) && all_hold(self.seen, self.secret)
    }

    /// From `self` to `later` conditions have only moved from the end of the
    /// unseen ones to the shown ones: the unseen ones of `later` are a
    /// beginning of those of `self`, and its shown ones are those of `self`
    /// and the ones that left, each as often. So no condition is lost or
    /// made, and the two counts add up to what they were.
    pub open spec fn moved_on_to(self, later: SessionView) -> bool {
        &&& later.secret == self.secret
        &&& later.unseen.len() <= self.unseen.len()
        &&& later.unseen == self.unseen.take(later.unseen.len() as int)
        &&& later.seen.len() >= self.seen.len()
        &&& later.seen.len() + later.unseen.len() == self.seen.len() + self.unseen.len()
        &&& later.seen.to_multiset() == self.seen.to_multiset().add(
            self.unseen.skip(later.unseen.len() as int).to_multiset(),
        )
    }
}

/// A guess only moves conditions from unseen to shown: the shown ones grow,
/// the unseen ones shrink, and together they stay as many.
pub proof fn lemma_guess_moves_conditions(v: SessionView, g: int)
    ensures
        v.moved_on_to(v.after_guess(g)),
{
    broadcast use vstd::seq_lib::lemma_multiset_commutative;

    let k = kept(v.unseen, v.seen, g);
    let (still_unseen, shown) = revealed(v.unseen, v.seen, g);
    lemma_last_failing(v.unseen, g);
    lemma_partition_len(shown, g);
    lemma_partition_keeps_members(shown, g);
    v.unseen.skip(k).lemma_reverse_to_multiset();
}

/// A session has moved on to itself, by no condition.
pub proof fn lemma_moved_on_nowhere(v: SessionView)
    ensures
        v.moved_on_to(v),
{
    let none = v.unseen.skip(v.unseen.len() as int);
    assert(v.unseen.take(v.unseen.len() as int) =~= v.unseen);
    vstd::seq_lib::lemma_multiset_commutative(v.seen, none);
}

/// Moving on twice is moving on.
pub proof fn lemma_moved_on_twice(a: SessionView, b: SessionView, c: SessionView)
    requires
        a.moved_on_to(b),
        b.moved_on_to(c),
    ensures
        a.moved_on_to(c),
{
    broadcast use vstd::seq_lib::lemma_multiset_commutative;

    let nb = b.unseen.len() as int;
    let nc = c.unseen.len() as int;
    assert(c.unseen =~= a.unseen.take(nc));
    assert(a.unseen.skip(nc) =~= b.unseen.skip(nc) + a.unseen.skip(nb));
    assert(c.seen.to_multiset() =~= a.seen.to_multiset().add(a.unseen.skip(nc).to_multiset()));
}

/// Over any sequence of guesses the shown conditions only grow, the unseen
/// ones only shrink, and together they stay as many.
pub proof fn lemma_guesses_move_conditions(v: SessionView, gs: Seq<int>)
    ensures
        v.moved_on_to(v.after_guesses(gs)),
    decreases gs.len(),
{
    if gs.len() == 0 {
        lemma_moved_on_nowhere(v);
    } else {
        let before = v.after_guesses(gs.drop_last());
        lemma_guesses_move_conditions(v, gs.drop_last());
        lemma_guess_moves_conditions(before, gs.last());
        lemma_moved_on_twice(v, before, before.after_guess(gs.last()));
    }
}

/// Where the secret meets every condition of a session, it still does after
/// a guess.
pub proof fn lemma_concrete_stays(v: SessionView, g: int)
    requires
        v.concrete(),
    ensures
        v.after_guess(g).concrete(),
{
    let k = kept(v.unseen, v.seen, g);
    let (still_unseen, shown) = revealed(v.unseen, v.seen, g);
    lemma_last_failing(v.unseen, g);
    assert(all_hold(shown, v.secret));
    lemma_members_of_partition(shown, g, v.secret);
}

/// Guessing the secret wins: where the secret meets every condition of the
/// session, the guess of the secret reveals them all and meets them all.
pub proof fn lemma_secret_wins(v: SessionView)
    requires
        v.concrete(),
    ensures
        v.after_guess(v.secret).unseen.len() == 0,
        v.after_guess(v.secret).won(),
{
    lemma_last_failing(v.unseen, v.secret);
    lemma_concrete_stays(v, v.secret);
}

/// One line of the board: a shown condition's sentence, and whether the
/// judged guess meets it.
#[derive(Clone, PartialEq, Eq, Debug)]
pub struct Row {
    /// Whether the judged guess meets the condition.
    pub satisfied: bool,
    /// The sentence that describes the condition.
    pub text: String,
}

/// What the player is shown: a line for each shown condition, in their
/// order, and whether the game is won.
#[derive(Clone, PartialEq, Eq, Debug)]
pub struct Board {
    /// The lines of the shown conditions.
    pub rows: Vec<Row>,
    /// Whether the game is won.
    pub won: bool,
}

/// `board` shows the session `v`: it is marked won exactly when `v` is won,
/// and has a line for each shown condition, in their order, with the
/// condition's sentence and whether the judged guess meets it.
pub open spec fn shows(board: Board, v: SessionView) -> bool {
    &&& board.won == v.won()
    &&& board.rows@.len() == v.seen.len()
    &&& forall|i: int|
        0 <= i < v.seen.len() ==> (#[trigger] board.rows@[i]).satisfied == holds(
            v.seen[i],
            v.judged_guess(),
        ) && board.rows@[i].text@ == describe(v.seen[i])
}

/// A game session.
pub struct Session {
    secret: i32,
    unseen: Vec<Condition>,
    seen: Vec<Condition>,
    current_guess: Option<i32>,
}

/// The view of a session is the session as plain values.
impl View for Session {
    type V = SessionView;

    /// The session as plain values.
    closed spec fn view(&self) -> SessionView {
        SessionView {
            secret: self.secret as int,
            unseen: self.unseen@,
            seen: self.seen@,
            current_guess: match self.current_guess {
                Some(g) => Some(g as int),
                None => None,
            },
        }
    }
}

impl Session {
    /// A fresh session: a secret drawn from 100 to 9999, one condition of
    /// each template's kind that the secret meets, all unseen and in a random
    /// order, and no guess yet.
    pub fn new() -> (session: Session)
        ensures
            100 <= session@.secret <= 9999,
            session@.unseen.len() == 10,
            session@.seen.len() == 0,
            session@.current_guess is None,
            session@.concrete(),
            exists|templates: Seq<Condition>, pool: Seq<Condition>|
                is_template_pool(templates) && instantiated(templates, session@.secret, pool)
                    && session@.unseen.to_multiset() == pool.to_multiset(),
    {
        let templates = template_pool();
        Session::from_templates(&templates)
    }

    /// A fresh session on templates of the caller's choice: a secret drawn
    /// from 100 to 9999, an instance of each template that the secret meets,
    /// all unseen and in a random order, and no guess yet.
    pub fn from_templates(templates: &Vec<Condition>) -> (session: Session)
        ensures
            100 <= session@.secret <= 9999,
            session@.unseen.len() == templates@.len(),
            session@.seen.len() == 0,
            session@.current_guess is None,
            session@.concrete(),
            exists|pool: Seq<Condition>|
                instantiated(templates@, session@.secret, pool) && session@.unseen.to_multiset()
                    == pool.to_multiset(),
    {
        let mut rng = rand::thread_rng();
        let secret = draw_in_range(&mut rng, 100, 10000);
        proof {
            assert forall|i: int| 0 <= i < templates@.len() implies can_instantiate(
                #[trigger] templates@[i],
                secret as int,
            ) by {
                lemma_drawn_secret_can_instantiate(templates@[i], secret as int);
            }
        }
        let mut pool = instantiate_all(templates, secret);
        let ghost drawn = pool@;
        shuffle(&mut rng, &mut pool);
        proof {
            vstd::seq_lib::to_multiset_len(pool@);
            vstd::seq_lib::to_multiset_len(drawn);
            assert forall|i: int| 0 <= i < pool@.len() implies holds(
                #[trigger] pool@[i],
                secret as int,
            ) by {
                vstd::seq_lib::to_multiset_contains(pool@, pool@[i]);
                vstd::seq_lib::to_multiset_contains(drawn, pool@[i]);
            }
        }
        Session { secret, unseen: pool, seen: Vec::new(), current_guess: None }
    }

    /// A session with the given secret and conditions, and no guess yet.
    pub fn with_conditions(secret: i32, unseen: Vec<Condition>, seen: Vec<Condition>) -> (session:
        Session)
        ensures
            session@ == (SessionView {
                secret: secret as int,
                unseen: unseen@,
                seen: seen@,
                current_guess: None,
            }),
    {
        Session { secret, unseen, seen, current_guess: None }
    }

    /// The number to be found.
    pub fn secret(&self) -> (secret: i32)
        ensures
            secret == self@.secret,
    {
        self.secret
    }

    /// The conditions not yet shown.
    pub fn unseen(&self) -> (unseen: &Vec<Condition>)
        ensures
            unseen@ == self@.unseen,
    {
        &self.unseen
    }

    /// The conditions shown, in the order in which they are shown.
    pub fn seen(&self) -> (seen: &Vec<Condition>)
        ensures
            seen@ == self@.seen,
    {
        &self.seen
    }

    /// The last guess that was understood, if there was one.
    pub fn current_guess(&self) -> (guess: Option<i32>)
        ensures
            guess is Some == self@.current_guess is Some,
            guess matches Some(g) ==> self@.current_guess == Some(g as int),
    {
        self.current_guess
    }

    /// Takes the guess `guess`: reveals what it can, and puts the shown
    /// conditions that it fails first.
    pub fn guess(&mut self, guess: i32)
        ensures
            final(self)@ == old(self)@.after_guess(guess as int),
            old(self)@.moved_on_to(final(self)@),
            old(self)@.concrete() ==> final(self)@.concrete(),
            old(self)@.concrete() && guess == old(self)@.secret ==> final(self)@.won(),
    {
        proof {
            lemma_guess_moves_conditions(self@, guess as int);
            if self@.concrete() {
                lemma_concrete_stays(self@, guess as int);
                if guess == self@.secret {
                    lemma_secret_wins(self@);
                }
            }
        }
        self.current_guess = Some(guess);
        show_more(&mut self.unseen, &mut self.seen, guess);
        put_failing_first(&mut self.seen, guess);
    }

    /// Whether the game is won: nothing is unseen and the judged guess meets
    /// every shown condition.
    pub fn is_won(&self) -> (won: bool)
        ensures
            won == self@.won(),
            won <==> self@.unseen.len() == 0 && all_hold(self@.seen, self@.judged_guess()),
    {
        let judged = match self.current_guess {
            Some(g) => g,
            None => 0,
        };
        self.unseen.len() == 0 && all_met(&self.seen, judged)
    }

    /// What the player is shown of the session.
    pub fn board(&self) -> (board: Board)
        ensures
            shows(board, self@),
    {
        let judged = match self.current_guess {
            Some(g) => g,
            None => 0,
        };
        let mut rows: Vec<Row> = Vec::new();
        let mut i: usize = 0;
        while i < self.seen.len()
            invariant
                i <= self.seen.len(),
                rows@.len() == i,
                judged == self@.judged_guess(),
                forall|j: int|
                    0 <= j < i ==> (#[trigger] rows@[j]).satisfied == holds(
                        self.seen@[j],
                        judged as int,
                    ) && rows@[j].text@ == describe(self.seen@[j]),
            decreases self.seen.len() - i,
        {
            let condition = &self.seen[i];
            rows.push(Row { satisfied: condition.check(judged), text: condition.as_string() });
            i += 1;
        }
        Board { rows, won: self.is_won() }
    }

    /// Takes what the player typed. A text that denotes a guess is taken as
    /// that guess; any other text changes nothing. Either way the player is
    /// shown the session as it then is.
    pub fn on_guess(&mut self, text: &str) -> (board: Board)
        ensures
            final(self)@ == old(self)@.after_text(text@),
            old(self)@.moved_on_to(final(self)@),
            shows(board, final(self)@),
            board.won <==> final(self)@.unseen.len() == 0 && all_hold(
                final(self)@.seen,
                final(self)@.judged_guess(),
            ),
    {
        match parse_guess(text) {
            Ok(guess) => {
                self.guess(guess);
            },
            Err(_) => {
                proof {
                    lemma_moved_on_nowhere(self@);
                }
            },
        }
        self.board()
    }
}

} // verus!
