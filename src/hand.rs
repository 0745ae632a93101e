use vstd::prelude::*;

use poker::{Card, Eval, Evaluator, FiveCard};

use crate::cards::{beats, distinct, evaluate_hand, evaluation};
use crate::common::{other, other_player, Position};
use crate::street::{
    admits, admitted, Action, ActionOption, ActionResult, Street, StreetName, CHIP_LIMIT,
};

verus! {

/// One hand: the cards, the stacks and the streets played so far, the last
/// of which is the one being bet.
pub struct Hand {
    pub btn_hole_cards: (Card, Card),
    pub bb_hole_cards: (Card, Card),
    pub board_cards: Vec<Card>,
    /// What is left of the deck; cards are dealt from its end.
    pub deck: Vec<Card>,
    pub sb_size: u64,
    /// Stacks when the hand began.
    pub btn_start_stack: u64,
    pub bb_start_stack: u64,
    /// Stacks after everything put in so far.
    pub btn_stack: u64,
    pub bb_stack: u64,
    pub pot: u64,
    pub streets: Vec<Street>,
}

/// Both evaluated hands and the hole cards behind them.
#[derive(Debug)]
pub struct Showdown {
    pub btn_eval: Eval<FiveCard>,
    pub bb_eval: Eval<FiveCard>,
    pub btn_hole_cards: (Card, Card),
    pub bb_hole_cards: (Card, Card),
}

/// How a hand ended and what each position takes into the next one.
#[derive(Debug)]
pub struct HandResult {
    /// `None` is a split pot.
    pub winner: Option<Position>,
    pub btn_next_hand_stack: u64,
    pub bb_next_hand_stack: u64,
    /// Present only when the hand went to showdown.
    pub showdown: Option<Showdown>,
}

/// The name of the street at index `i` of a hand.
pub open spec fn street_at(i: int) -> StreetName {
    if i == 0 {
        StreetName::Preflop
    } else if i == 1 {
        StreetName::Flop
    } else if i == 2 {
        StreetName::Turn
    } else {
        StreetName::River
    }
}

/// The board once `n` streets have been opened.
pub open spec fn board_size(n: int) -> int {
    if n <= 1 {
        0
    } else if n == 2 {
        3
    } else if n == 3 {
        4
    } else {
        5
    }
}

/// What the button put in over the first `k` streets.
pub open spec fn btn_total(ss: Seq<Street>, k: int) -> int
    decreases k,
{
    if k <= 0 {
        0
    } else {
        btn_total(ss, k - 1) + ss[k - 1].tally().btn
    }
}

/// What the big blind put in over the first `k` streets.
pub open spec fn bb_total(ss: Seq<Street>, k: int) -> int
    decreases k,
{
    if k <= 0 {
        0
    } else {
        bb_total(ss, k - 1) + ss[k - 1].tally().bb
    }
}

/// The next-hand stacks: a winner takes back their own stake and the other
/// player's; on a split both keep their start stacks.
pub open spec fn settlement(
    btn_start: int,
    bb_start: int,
    btn_put: int,
    bb_put: int,
    winner: Option<Position>,
) -> (int, int) {
    match winner {
        Some(Position::Button) => (btn_start + bb_put, bb_start - bb_put),
        Some(Position::BigBlind) => (btn_start - btn_put, bb_start + btn_put),
        None => (btn_start, bb_start),
    }
}

/// The `k` cards dealt from the end of `deck`, in the order they come off.
pub open spec fn dealt(deck: Seq<Card>, k: int) -> Seq<Card> {
    Seq::new(k as nat, |i: int| deck[deck.len() - 1 - i])
}

/// The winner of a showdown from the two comparisons of the evaluations.
pub open spec fn winner_of(btn_better: bool, bb_better: bool) -> Option<Position> {
    if btn_better {
        Some(Position::Button)
    } else if bb_better {
        Some(Position::BigBlind)
    } else {
        None
    }
}

impl Hand {
    pub open spec fn holes(self) -> Seq<Card> {
        seq![self.btn_hole_cards.0, self.btn_hole_cards.1, self.bb_hole_cards.0, self.bb_hole_cards.1]
    }

    /// Every card of the hand: hole cards, board and what is left of the deck.
    pub open spec fn cards(self) -> Seq<Card> {
        self.holes() + self.board_cards@ + self.deck@
    }

    /// The button's hole cards followed by the board.
    pub open spec fn btn_cards(self) -> Seq<Card> {
        seq![self.btn_hole_cards.0, self.btn_hole_cards.1] + self.board_cards@
    }

    /// The big blind's hole cards followed by the board.
    pub open spec fn bb_cards(self) -> Seq<Card> {
        seq![self.bb_hole_cards.0, self.bb_hole_cards.1] + self.board_cards@
    }

    /// The winner at showdown: the strictly better evaluation, or a split.
    pub open spec fn showdown_result(self) -> Option<Position> {
        let b = evaluation(self.btn_cards());
        let g = evaluation(self.bb_cards());
        winner_of(beats(b, g), beats(g, b))
    }

    /// The two evaluations do not beat each other, as the evaluator's strict
    /// comparison guarantees whenever it is asked both ways.
    pub open spec fn showdown_consistent(self) -> bool {
        let b = evaluation(self.btn_cards());
        let g = evaluation(self.bb_cards());
        !(beats(b, g) && beats(g, b))
    }

    pub open spec fn current(self) -> Street {
        self.streets@.last()
    }

    pub open spec fn btn_put_in(self) -> int {
        btn_total(self.streets@, self.streets@.len() as int)
    }

    pub open spec fn bb_put_in(self) -> int {
        bb_total(self.streets@, self.streets@.len() as int)
    }

    /// Each street is well formed, named by its place, opens at twice the
    /// small blind and starts from the stacks left by the streets before it.
    pub open spec fn streets_ok(self) -> bool {
        let ss = self.streets@;
        &&& 1 <= ss.len() <= 4
        &&& self.btn_start_stack + self.bb_start_stack <= CHIP_LIMIT
        &&& 2 * self.sb_size <= CHIP_LIMIT
        &&& forall|i: int|
            0 <= i < ss.len() ==> {
                &&& (#[trigger] ss[i]).wf()
                &&& ss[i].street == street_at(i)
                &&& ss[i].min_open_raise == 2 * self.sb_size
                &&& ss[i].btn_start_stack == self.btn_start_stack - btn_total(ss, i)
                &&& ss[i].bb_start_stack == self.bb_start_stack - bb_total(ss, i)
            }
    }

    /// The pot and the stacks agree with what the streets record.
    pub open spec fn money_ok(self) -> bool {
        &&& self.btn_stack == self.btn_start_stack - self.btn_put_in()
        &&& self.bb_stack == self.bb_start_stack - self.bb_put_in()
        &&& self.pot == self.btn_put_in() + self.bb_put_in()
    }

    /// The board matches the street and the deck still holds what is to come.
    pub open spec fn cards_ok(self) -> bool {
        &&& self.board_cards@.len() == board_size(self.streets@.len() as int)
        &&& self.deck@.len() >= 5 - board_size(self.streets@.len() as int)
        &&& distinct(self.cards())
    }

    pub open spec fn wf(self) -> bool {
        &&& self.streets_ok()
        &&& self.money_ok()
        &&& self.cards_ok()
    }

    /// The next-hand stacks for `winner`.
    pub open spec fn settle(self, winner: Option<Position>) -> (int, int) {
        settlement(
            self.btn_start_stack as int,
            self.bb_start_stack as int,
            self.btn_start_stack - self.btn_stack,
            self.bb_start_stack - self.bb_stack,
            winner,
        )
    }

    /// Same blinds, start stacks and hole cards.
    pub open spec fn same_hand(self, o: Hand) -> bool {
        &&& self.sb_size == o.sb_size
        &&& self.btn_start_stack == o.btn_start_stack
        &&& self.bb_start_stack == o.bb_start_stack
        &&& self.btn_hole_cards == o.btn_hole_cards
        &&& self.bb_hole_cards == o.bb_hole_cards
    }

    /// How `Hand::submit_action` takes the hand from `self` to `next` and
    /// what it returns.
    pub open spec fn advances(
        self,
        next: Hand,
        action: Action,
        r: Result<Option<HandResult>, String>,
    ) -> bool {
        let st = self.current();
        let n = self.streets@.len() as int;
        &&& r is Err <==> !admitted(st.options(), action)
        &&& r is Err ==> next == self && r->Err_0@ == "Invalid action"@
        &&& r is Ok ==> {
            let played = next.streets@[n - 1];
            &&& next.same_hand(self)
            &&& next.streets@.len() >= n
            &&& forall|i: int| 0 <= i < n - 1 ==> next.streets@[i] == self.streets@[i]
            &&& played.same_setup(st)
            &&& played.actions@ == st.actions@.push(action)
            &&& match st.outcome(action) {
                ActionResult::Fold(p) => {
                    &&& next.streets@.len() == n
                    &&& next.board_cards == self.board_cards
                    &&& next.deck == self.deck
                    &&& r matches Ok(Some(res)) && res.winner == Some(other(p)) && res.showdown
                        is None && res.btn_next_hand_stack == next.settle(res.winner).0
                        && res.bb_next_hand_stack == next.settle(res.winner).1
                },
                ActionResult::BettingOpen => {
                    &&& next.streets@.len() == n
                    &&& next.board_cards == self.board_cards
                    &&& next.deck == self.deck
                    &&& r == Ok::<Option<HandResult>, String>(None)
                },
                ActionResult::BettingClosed => if st.street == StreetName::River {
                    &&& next.streets@.len() == n
                    &&& next.board_cards == self.board_cards
                    &&& next.deck == self.deck
                    &&& r matches Ok(Some(res)) && res.showdown is Some
                        && res.winner == next.showdown_result()
                        && res.btn_next_hand_stack == next.settle(res.winner).0
                        && res.bb_next_hand_stack == next.settle(res.winner).1
                } else {
                    let k = board_size(n + 1) - board_size(n as int);
                    &&& next.streets@.len() == n + 1
                    &&& next.current().actions@.len() == 0
                    &&& next.board_cards@ == self.board_cards@ + dealt(self.deck@, k)
                    &&& next.deck@ == self.deck@.subrange(0, self.deck@.len() - k)
                    &&& r == Ok::<Option<HandResult>, String>(None)
                },
            }
        }
    }
}

impl Hand {
    /// Deals the hole cards from the end of `deck`, two to the button and then
    /// two to the big blind, opens the preflop street at twice the small blind
    /// and posts both blinds on it.
    pub fn new(deck: Vec<Card>, btn_stack: u64, bb_stack: u64, sb_size: u64) -> (r: Hand)
        requires
            deck@.len() >= 9,
            distinct(deck@),
            btn_stack + bb_stack <= CHIP_LIMIT,
            2 * sb_size <= CHIP_LIMIT,
            btn_stack >= sb_size,
            bb_stack >= 2 * sb_size,
        ensures
            r.wf(),
            r.btn_hole_cards == (deck@[deck@.len() - 1], deck@[deck@.len() - 2]),
            r.bb_hole_cards == (deck@[deck@.len() - 3], deck@[deck@.len() - 4]),
            r.deck@ == deck@.subrange(0, deck@.len() - 4),
            r.board_cards@.len() == 0,
            r.sb_size == sb_size,
            r.btn_start_stack == btn_stack,
            r.bb_start_stack == bb_stack,
            r.btn_stack == btn_stack - sb_size,
            r.bb_stack == bb_stack - 2 * sb_size,
            r.pot == 3 * sb_size,
            r.streets@.len() == 1,
            r.current().street == StreetName::Preflop,
            r.current().actions@ == seq![
                Action::PostBlind(sb_size),
                Action::PostBlind((2 * sb_size) as u64),
            ],
    {
        let ghost d = deck@;
        let mut deck = deck;
        let b1 = deck.pop().unwrap();
        let b2 = deck.pop().unwrap();
        let btn_hole_cards = (b1, b2);
        let g1 = deck.pop().unwrap();
        let g2 = deck.pop().unwrap();
        let bb_hole_cards = (g1, g2);
        let board_cards = Vec::new();
        let mut streets = Vec::<Street>::new();
        let mut preflop = Street::new(StreetName::Preflop, 2 * sb_size, btn_stack, bb_stack);
        proof {
            assert(preflop.options() =~= seq![ActionOption::PostBlind(sb_size)]);
            assert(admits(preflop.options()[0], Action::PostBlind(sb_size)));
        }
        let small = preflop.submit_action(Action::PostBlind(sb_size));
        proof {
            assert(preflop.options() =~= seq![ActionOption::PostBlind((2 * sb_size) as u64)]);
            assert(admits(preflop.options()[0], Action::PostBlind((2 * sb_size) as u64)));
        }
        let big = preflop.submit_action(Action::PostBlind(2 * sb_size));
        proof {
            let acts = preflop.actions@;
            assert(acts =~= seq![Action::PostBlind(sb_size), Action::PostBlind((2 * sb_size) as u64)]);
            assert(acts.drop_last() =~= seq![Action::PostBlind(sb_size)]);
            assert(acts.drop_last().drop_last() =~= Seq::<Action>::empty());
            assert(preflop.tally().btn == sb_size);
            assert(preflop.tally().bb == 2 * sb_size);
        }
        streets.push(preflop);
        let r = Hand {
            btn_hole_cards,
            bb_hole_cards,
            board_cards,
            deck,
            sb_size,
            btn_start_stack: btn_stack,
            btn_stack: btn_stack - sb_size,
            bb_start_stack: bb_stack,
            bb_stack: bb_stack - 2 * sb_size,
            pot: 3 * sb_size,
            streets,
        };
        proof {
            let all = r.cards();
            let n = d.len() as int;
            assert(r.deck@ =~= d.subrange(0, n - 4));
            assert(all.len() == n);
            assert forall|k: int| 0 <= k < all.len() implies all[k] == d[if k < 4 {
                n - 1 - k
            } else {
                k - 4
            }] by {}
            assert forall|i: int, j: int|
                0 <= i < all.len() && 0 <= j < all.len() && i != j implies all[i] != all[j] by {
                let fi = if i < 4 {
                    n - 1 - i
                } else {
                    i - 4
                };
                let fj = if j < 4 {
                    n - 1 - j
                } else {
                    j - 4
                };
                assert(all[i] == d[fi]);
                assert(all[j] == d[fj]);
            }
            assert(r.streets@[0] == preflop);
            assert(btn_total(r.streets@, 0) == 0);
            assert(bb_total(r.streets@, 0) == 0);
            assert(btn_total(r.streets@, 1) == sb_size);
            assert(bb_total(r.streets@, 1) == 2 * sb_size);
            assert(r.streets_ok());
            assert(r.money_ok());
            assert(r.cards_ok());
        }
        r
    }

    /// Compares the two best hands, hole cards plus board, with the outside
    /// evaluator.
    pub fn run_showdown(&mut self) -> (r: (Showdown, Option<Position>))
        requires
            old(self).wf(),
            old(self).streets@.len() == 4,
        ensures
            *final(self) == *old(self),
            r.0.btn_hole_cards == old(self).btn_hole_cards,
            r.0.bb_hole_cards == old(self).bb_hole_cards,
            r.0.btn_eval == evaluation(old(self).btn_cards()),
            r.0.bb_eval == evaluation(old(self).bb_cards()),
            r.1 == old(self).showdown_result(),
            old(self).showdown_consistent(),
    {
        let eval = Evaluator::new();
        let mut btn_hand: Vec<Card> = Vec::new();
        btn_hand.push(self.btn_hole_cards.0);
        btn_hand.push(self.btn_hole_cards.1);
        let mut bb_hand: Vec<Card> = Vec::new();
        bb_hand.push(self.bb_hole_cards.0);
        bb_hand.push(self.bb_hole_cards.1);
        let mut i: usize = 0;
        while i < self.board_cards.len()
            invariant
                0 <= i <= self.board_cards@.len(),
                btn_hand@ == seq![self.btn_hole_cards.0, self.btn_hole_cards.1]
                    + self.board_cards@.take(i as int),
                bb_hand@ == seq![self.bb_hole_cards.0, self.bb_hole_cards.1]
                    + self.board_cards@.take(i as int),
            decreases self.board_cards@.len() - i,
        {
            btn_hand.push(self.board_cards[i]);
            bb_hand.push(self.board_cards[i]);
            proof {
                assert(self.board_cards@.take(i + 1) =~= self.board_cards@.take(i as int).push(
                    self.board_cards@[i as int],
                ));
                assert(btn_hand@ =~= seq![self.btn_hole_cards.0, self.btn_hole_cards.1]
                    + self.board_cards@.take(i + 1));
                assert(bb_hand@ =~= seq![self.bb_hole_cards.0, self.bb_hole_cards.1]
                    + self.board_cards@.take(i + 1));
            }
            i += 1;
        }
        proof {
            let all = self.cards();
            assert(self.board_cards@.take(i as int) =~= self.board_cards@);
            assert(btn_hand@ =~= self.btn_cards());
            assert(bb_hand@ =~= self.bb_cards());
            assert forall|k: int| 0 <= k < btn_hand@.len() implies btn_hand@[k] == all[if k < 2 {
                k
            } else {
                k + 2
            }] by {}
            assert forall|k: int| 0 <= k < bb_hand@.len() implies bb_hand@[k] == all[k + 2] by {}
            assert forall|a: int, b: int|
                0 <= a < btn_hand@.len() && 0 <= b < btn_hand@.len() && a != b implies btn_hand@[a]
                != btn_hand@[b] by {
                let fa = if a < 2 {
                    a
                } else {
                    a + 2
                };
                let fb = if b < 2 {
                    b
                } else {
                    b + 2
                };
                assert(btn_hand@[a] == all[fa]);
                assert(btn_hand@[b] == all[fb]);
            }
            assert forall|a: int, b: int|
                0 <= a < bb_hand@.len() && 0 <= b < bb_hand@.len() && a != b implies bb_hand@[a]
                != bb_hand@[b] by {
                assert(bb_hand@[a] == all[a + 2]);
                assert(bb_hand@[b] == all[b + 2]);
            }
        }
        let btn_hand_eval = evaluate_hand(&eval, &btn_hand);
        let bb_hand_eval = evaluate_hand(&eval, &bb_hand);
        let showdown = Showdown {
            btn_eval: btn_hand_eval,
            bb_eval: bb_hand_eval,
            btn_hole_cards: self.btn_hole_cards,
            bb_hole_cards: self.bb_hole_cards,
        };
        let winner = showdown_winner(
            btn_hand_eval.is_better_than(bb_hand_eval),
            bb_hand_eval.is_better_than(btn_hand_eval),
        );
        (showdown, winner)
    }

    /// Moves the last card of the deck onto the board.
    fn deal_card(&mut self)
        requires
            old(self).deck@.len() > 0,
            distinct(old(self).cards()),
        ensures
            final(self).board_cards@ == old(self).board_cards@.push(old(self).deck@.last()),
            final(self).deck@ == old(self).deck@.drop_last(),
            final(self).streets == old(self).streets,
            final(self).same_hand(*old(self)),
            final(self).btn_stack == old(self).btn_stack,
            final(self).bb_stack == old(self).bb_stack,
            final(self).pot == old(self).pot,
            distinct(final(self).cards()),
    {
        proof {
            lemma_deal_distinct(self.holes(), self.board_cards@, self.deck@);
        }
        let card = self.deck.pop().unwrap();
        self.board_cards.push(card);
        proof {
            assert(self.cards() =~= old(self).holes() + old(self).board_cards@.push(
                old(self).deck@.last(),
            ) + old(self).deck@.drop_last());
        }
    }

    /// Deals the next street's board cards (three for the flop, one for the
    /// turn and one for the river) and opens that street at twice the small
    /// blind, from the stacks as they stand.
    pub fn goto_next_street(&mut self)
        requires
            old(self).wf(),
            old(self).streets@.len() < 4,
        ensures
            final(self).wf(),
            final(self).same_hand(*old(self)),
            final(self).btn_stack == old(self).btn_stack,
            final(self).bb_stack == old(self).bb_stack,
            final(self).pot == old(self).pot,
            final(self).streets@.len() == old(self).streets@.len() + 1,
            forall|i: int|
                0 <= i < old(self).streets@.len() ==> final(self).streets@[i]
                    == old(self).streets@[i],
            final(self).current().street == street_at(old(self).streets@.len() as int),
            final(self).current().actions@.len() == 0,
            final(self).current().btn_start_stack == old(self).btn_stack,
            final(self).current().bb_start_stack == old(self).bb_stack,
            ({
                let n = old(self).streets@.len() as int;
                let k = board_size(n + 1) - board_size(n);
                &&& final(self).board_cards@ == old(self).board_cards@ + dealt(old(self).deck@, k)
                &&& final(self).deck@ == old(self).deck@.subrange(0, old(self).deck@.len() - k)
            }),
    {
        let n = self.streets.len();
        let street_name = self.streets[n - 1].street;
        proof {
            assert(self.streets@[n - 1].street == street_at(n - 1));
        }
        let next_street_name = match street_name {
            StreetName::Preflop => {
                self.deal_card();
                self.deal_card();
                self.deal_card();
                StreetName::Flop
            },
            StreetName::Flop => {
                self.deal_card();
                StreetName::Turn
            },
            _ => {
                self.deal_card();
                StreetName::River
            },
        };
        proof {
            let k = board_size(n + 1) - board_size(n as int);
            let d = old(self).deck@;
            assert(self.board_cards@ =~= old(self).board_cards@ + dealt(d, k));
            assert(self.deck@ =~= d.subrange(0, d.len() - k));
            lemma_totals_bounded(*old(self), n as int);
        }
        let next = Street::new(next_street_name, self.sb_size * 2, self.btn_stack, self.bb_stack);
        let ghost before = self.streets@;
        self.streets.push(next);
        proof {
            let ss = self.streets@;
            lemma_totals_prefix(before, ss, n as int);
            assert(ss[n as int] == next);
            assert(next.tally() == next.tally_of(Seq::empty()));
            assert forall|i: int| 0 <= i < ss.len() implies {
                &&& (#[trigger] ss[i]).wf()
                &&& ss[i].street == street_at(i)
                &&& ss[i].min_open_raise == 2 * self.sb_size
                &&& ss[i].btn_start_stack == self.btn_start_stack - btn_total(ss, i)
                &&& ss[i].bb_start_stack == self.bb_start_stack - bb_total(ss, i)
            } by {
                if i < n {
                    assert(ss[i] == before[i]);
                    lemma_totals_prefix(before, ss, i);
                }
            }
        }
    }

    /// Recomputes the pot and both stacks from every street so far.
    pub fn update_pot_and_stacks(&mut self)
        requires
            old(self).streets_ok(),
        ensures
            final(self).streets == old(self).streets,
            final(self).board_cards == old(self).board_cards,
            final(self).deck == old(self).deck,
            final(self).same_hand(*old(self)),
            final(self).streets_ok(),
            final(self).money_ok(),
    {
        let mut pot: u64 = 0;
        let mut btn_stack: u64 = self.btn_start_stack;
        let mut bb_stack: u64 = self.bb_start_stack;
        let mut i: usize = 0;
        while i < self.streets.len()
            invariant
                self.streets_ok(),
                0 <= i <= self.streets@.len(),
                pot == btn_total(self.streets@, i as int) + bb_total(self.streets@, i as int),
                btn_stack == self.btn_start_stack - btn_total(self.streets@, i as int),
                bb_stack == self.bb_start_stack - bb_total(self.streets@, i as int),
            decreases self.streets@.len() - i,
        {
            proof {
                assert(self.streets@[i as int].wf());
                lemma_totals_bounded(*self, i + 1);
            }
            let (btn_added_chips, bb_added_chips, _, _) = self.streets[i].get_street_status();
            pot = pot + btn_added_chips + bb_added_chips;
            btn_stack = btn_stack - btn_added_chips;
            bb_stack = bb_stack - bb_added_chips;
            i += 1;
        }
        self.pot = pot;
        self.btn_stack = btn_stack;
        self.bb_stack = bb_stack;
    }

    /// The stacks each position takes into the next hand once `winner` has
    /// been decided; `None` splits the pot.
    pub fn get_stacks_after_hand(&self, winner: Option<Position>) -> (r: (u64, u64))
        requires
            self.wf(),
        ensures
            r.0 == self.settle(winner).0,
            r.1 == self.settle(winner).1,
    {
        proof {
            lemma_totals_bounded(*self, self.streets@.len() as int);
        }
        let btn_added = self.btn_start_stack - self.btn_stack;
        let bb_added = self.bb_start_stack - self.bb_stack;
        match winner {
            Some(Position::Button) => (self.btn_start_stack + bb_added, self.bb_start_stack - bb_added),
            Some(Position::BigBlind) => (
                self.btn_start_stack - btn_added,
                self.bb_start_stack + btn_added,
            ),
            None => (self.btn_start_stack, self.bb_start_stack),
        }
    }

    /// Plays `action` on the current street. `Ok(None)` while the hand goes
    /// on, `Ok(Some(result))` once it has ended by a fold or at showdown; an
    /// action that is not on offer is refused and changes nothing.
    pub fn submit_action(&mut self, action: Action) -> (r: Result<Option<HandResult>, String>)
        requires
            old(self).wf(),
        ensures
            final(self).wf(),
            old(self).advances(*final(self), action, r),
    {
        let n = self.streets.len();
        let streetname = self.streets[n - 1].street;
        if !self.streets[n - 1].is_valid_action(action) {
            return Err("Invalid action".to_string());
        }
        let ghost before = *self;
        let mut street = self.streets.pop().unwrap();
        let result = street.submit_action(action);
        self.streets.push(street);
        proof {
            let ss = self.streets@;
            let bs = before.streets@;
            assert(bs[n - 1].wf());
            lemma_totals_prefix(bs, ss, n - 1);
            assert forall|i: int| 0 <= i < ss.len() implies {
                &&& (#[trigger] ss[i]).wf()
                &&& ss[i].street == street_at(i)
                &&& ss[i].min_open_raise == 2 * self.sb_size
                &&& ss[i].btn_start_stack == self.btn_start_stack - btn_total(ss, i)
                &&& ss[i].bb_start_stack == self.bb_start_stack - bb_total(ss, i)
            } by {
                if i < n - 1 {
                    assert(ss[i] == bs[i]);
                    lemma_totals_prefix(bs, ss, i);
                } else {
                    assert(ss[i] == street);
                    assert(bs[i].wf());
                }
            }
        }
        self.update_pot_and_stacks();
        match result {
            Ok(ActionResult::BettingClosed) => {
                if streetname == StreetName::River {
                    let (showdown, winner) = self.run_showdown();
                    let (btn_new_stack, bb_new_stack) = self.get_stacks_after_hand(winner);
                    Ok(
                        Some(
                            HandResult {
                                winner,
                                btn_next_hand_stack: btn_new_stack,
                                bb_next_hand_stack: bb_new_stack,
                                showdown: Some(showdown),
                            },
                        ),
                    )
                } else {
                    proof {
                        assert(before.streets@[n - 1].street == street_at(n - 1));
                    }
                    self.goto_next_street();
                    Ok(None)
                }
            },
            Ok(ActionResult::BettingOpen) => Ok(None),
            Ok(ActionResult::Fold(player)) => {
                let winner = other_player(player);
                let (btn_new_stack, bb_new_stack) = self.get_stacks_after_hand(Some(winner));
                Ok(
                    Some(
                        HandResult {
                            winner: Some(winner),
                            btn_next_hand_stack: btn_new_stack,
                            bb_next_hand_stack: bb_new_stack,
                            showdown: None,
                        },
                    ),
                )
            },
            Err(e) => Err(e),
        }
    }
}

/// The showdown's winner from whether each evaluation beats the other: the
/// strictly better hand wins, equal hands split the pot.
pub fn showdown_winner(btn_better: bool, bb_better: bool) -> (r: Option<Position>)
    ensures
        r == winner_of(btn_better, bb_better),
{
    if btn_better {
        Some(Position::Button)
    } else if bb_better {
        Some(Position::BigBlind)
    } else {
        None
    }
}

/// Only the first `k` streets count toward the totals over them.
proof fn lemma_totals_prefix(a: Seq<Street>, b: Seq<Street>, k: int)
    requires
        0 <= k <= a.len(),
        k <= b.len(),
        forall|i: int| 0 <= i < k ==> a[i] == b[i],
    ensures
        btn_total(a, k) == btn_total(b, k),
        bb_total(a, k) == bb_total(b, k),
    decreases k,
{
    if k > 0 {
        lemma_totals_prefix(a, b, k - 1);
    }
}

/// The totals never exceed the start stacks of a hand whose streets chain up.
proof fn lemma_totals_bounded(h: Hand, k: int)
    requires
        h.streets_ok(),
        0 <= k <= h.streets@.len(),
    ensures
        0 <= btn_total(h.streets@, k) <= h.btn_start_stack,
        0 <= bb_total(h.streets@, k) <= h.bb_start_stack,
    decreases k,
{
    if k > 0 {
        lemma_totals_bounded(h, k - 1);
        let s = h.streets@[k - 1];
        assert(s.wf());
        s.lemma_wf_tally();
    }
}

/// Dealing the last card of the deck onto the board keeps every card distinct.
proof fn lemma_deal_distinct(h: Seq<Card>, b: Seq<Card>, d: Seq<Card>)
    requires
        d.len() > 0,
        distinct(h + b + d),
    ensures
        distinct(h + b.push(d.last()) + d.drop_last()),
{
    let o = h + b + d;
    let n = h + b.push(d.last()) + d.drop_last();
    let m = h.len() + b.len();
    assert(n.len() == o.len());
    assert forall|k: int| 0 <= k < n.len() implies n[k] == o[if k < m {
        k
    } else if k == m {
        o.len() - 1
    } else {
        k - 1
    }] by {
        if k < h.len() {
        } else if k < m {
        } else if k == m {
        } else {
        }
    }
    assert forall|i: int, j: int| 0 <= i < n.len() && 0 <= j < n.len() && i != j implies n[i]
        != n[j] by {
        let fi = if i < m {
            i
        } else if i == m {
            o.len() - 1
        } else {
            i - 1
        };
        let fj = if j < m {
            j
        } else if j == m {
            o.len() - 1
        } else {
            j - 1
        };
        assert(n[i] == o[fi]);
        assert(n[j] == o[fj]);
    }
}


/// Swapping the two players' hole cards over the same board swaps the
/// showdown's winner, and a split stays a split.
pub proof fn lemma_showdown_mirror(h: Hand, g: Hand)
    requires
        h.showdown_consistent(),
        g.btn_cards() == h.bb_cards(),
        g.bb_cards() == h.btn_cards(),
    ensures
        g.showdown_result() == match h.showdown_result() {
            Some(p) => Some(other(p)),
            None => None,
        },
{
}

/// Chip conservation: in a well-formed hand, which every accepted action
/// leaves well formed, the pot and both stacks add up to the two start stacks.
pub proof fn lemma_chip_conservation(h: Hand)
    requires
        h.wf(),
    ensures
        h.pot + h.btn_stack + h.bb_stack == h.btn_start_stack + h.bb_start_stack,
{
}

/// Settling a hand, whoever wins, hands out exactly the chips the two players
/// brought to it, and neither next-hand stack is negative.
pub proof fn lemma_settlement_conserves(h: Hand, winner: Option<Position>)
    requires
        h.wf(),
    ensures
        h.settle(winner).0 + h.settle(winner).1 == h.btn_start_stack + h.bb_start_stack,
        h.settle(winner).0 >= 0,
        h.settle(winner).1 >= 0,
{
    lemma_totals_bounded(h, h.streets@.len() as int);
}

} // verus!
