use vstd::prelude::*;

use poker::Card;

use crate::cards::card_text;
use crate::common::Position;
use crate::hand::{lemma_settlement_conserves, Hand, HandResult};
use crate::street::{Action, ActionOption, CHIP_LIMIT};

verus! {

/// A table: the hand in play and which physical seat, 0 or 1, holds the button.
pub struct Game {
    pub current_hand: Hand,
    pub button_seat: u8,
    /// Set once a hand ends with a stack that cannot post its blind in the
    /// next one: the table then deals no more and refuses every action.
    pub finished: bool,
}

/// What a seat is shown of the table. Only the requesting seat's own hole
/// cards are in it.
pub struct GameState {
    pub pot_size: u64,
    pub btn_stack: u64,
    pub bb_stack: u64,
    pub btn_added_chips_this_street: u64,
    pub bb_added_chips_this_street: u64,
    pub button_seat: u8,
    pub sb_size: u64,
    pub bb_size: u64,
    pub btn_hole_cards: Option<(String, String)>,
    pub bb_hole_cards: Option<(String, String)>,
    pub board_cards: Vec<String>,
    pub available_actions: Vec<ActionOption>,
    pub active_player: Position,
}

/// The position a seat holds when `button_seat` has the button.
pub open spec fn position_of(seat: u8, button_seat: u8) -> Position {
    if seat == button_seat {
        Position::Button
    } else {
        Position::BigBlind
    }
}

/// Both stacks can post their blinds: the small blind from the button, twice
/// it from the big blind.
pub open spec fn covers_blinds(btn_stack: u64, bb_stack: u64, sb_size: u64) -> bool {
    btn_stack >= sb_size && bb_stack >= 2 * sb_size
}

impl Game {
    pub open spec fn wf(self) -> bool {
        &&& self.current_hand.wf()
        &&& self.button_seat <= 1
    }

    /// A hand that has just been dealt from a full deck with these stacks and
    /// blinds, both blinds posted.
    pub open spec fn fresh(self, btn_stack: u64, bb_stack: u64, sb_size: u64) -> bool {
        let h = self.current_hand;
        &&& self.wf()
        &&& !self.finished
        &&& h.btn_start_stack == btn_stack
        &&& h.bb_start_stack == bb_stack
        &&& h.sb_size == sb_size
        &&& h.btn_stack == btn_stack - sb_size
        &&& h.bb_stack == bb_stack - 2 * sb_size
        &&& h.pot == 3 * sb_size
        &&& h.streets@.len() == 1
        &&& h.current().actions@ == seq![
            Action::PostBlind(sb_size),
            Action::PostBlind((2 * sb_size) as u64),
        ]
        &&& h.board_cards@.len() == 0
        &&& h.deck@.len() == 48
    }

    /// A table whose first hand gives 995 to the button and 990 to the big
    /// blind, with a small blind of 5.
    pub fn new() -> (r: Game)
        ensures
            r.fresh(995, 990, 5),
            r.button_seat == 0,
    {
        let deck: Vec<Card> = poker::deck::shuffled();
        let hand = Hand::new(deck, 995, 990, 5);
        Game { current_hand: hand, button_seat: 0, finished: false }
    }

    /// A table whose first hand is dealt from a shuffled deck with the given
    /// stacks; seat 0 has the button.
    pub fn new_with_stacks_and_sb(btn_stack: u64, bb_stack: u64, sb_size: u64) -> (r: Game)
        requires
            btn_stack + bb_stack <= CHIP_LIMIT,
            2 * sb_size <= CHIP_LIMIT,
            covers_blinds(btn_stack, bb_stack, sb_size),
        ensures
            r.fresh(btn_stack, bb_stack, sb_size),
            r.button_seat == 0,
    {
        let deck: Vec<Card> = poker::deck::shuffled();
        let hand = Hand::new(deck, btn_stack, bb_stack, sb_size);
        Game { current_hand: hand, button_seat: 0, finished: false }
    }

    /// The snapshot shown to `for_seat`: pot, stacks, this street's stakes,
    /// blinds, that seat's own hole cards only, the board, the options on
    /// offer and whose turn it is.
    pub fn get_state(&self, for_seat: u8) -> (r: GameState)
        requires
            self.wf(),
        ensures
            ({
                let h = self.current_hand;
                let t = h.current().tally();
                &&& r.pot_size == h.pot
                &&& r.btn_stack == h.btn_stack
                &&& r.bb_stack == h.bb_stack
                &&& r.btn_added_chips_this_street == t.btn
                &&& r.bb_added_chips_this_street == t.bb
                &&& r.button_seat == self.button_seat
                &&& r.sb_size == h.sb_size
                &&& r.bb_size == 2 * h.sb_size
                &&& (for_seat == self.button_seat <==> r.btn_hole_cards is Some)
                &&& (for_seat == self.button_seat <==> r.bb_hole_cards is None)
                &&& r.btn_hole_cards matches Some((a, b)) ==> a@ == card_text(h.btn_hole_cards.0)
                    && b@ == card_text(h.btn_hole_cards.1)
                &&& r.bb_hole_cards matches Some((a, b)) ==> a@ == card_text(h.bb_hole_cards.0)
                    && b@ == card_text(h.bb_hole_cards.1)
                &&& r.board_cards@.len() == h.board_cards@.len()
                &&& forall|i: int|
                    0 <= i < r.board_cards@.len() ==> (#[trigger] r.board_cards@[i])@ == card_text(
                        h.board_cards@[i],
                    )
                &&& r.available_actions@ == h.current().options()
                &&& r.active_player == t.active
            }),
    {
        let hand = &self.current_hand;
        let n = hand.streets.len();
        proof {
            assert(hand.streets@[n - 1].wf());
        }
        let (btn_added_chips, bb_added_chips, _, active_player) =
            hand.streets[n - 1].get_street_status();
        let button_seat = self.button_seat;
        let btn_hole_cards = if for_seat == button_seat {
            Some((hand.btn_hole_cards.0.rank_suit_string(), hand.btn_hole_cards.1.rank_suit_string()))
        } else {
            None
        };
        let bb_hole_cards = if for_seat == button_seat {
            None
        } else {
            Some((hand.bb_hole_cards.0.rank_suit_string(), hand.bb_hole_cards.1.rank_suit_string()))
        };
        let mut board: Vec<String> = Vec::new();
        let mut i: usize = 0;
        while i < hand.board_cards.len()
            invariant
                0 <= i <= hand.board_cards@.len(),
                board@.len() == i,
                forall|j: int| 0 <= j < i ==> (#[trigger] board@[j])@ == card_text(hand.board_cards@[j]),
            decreases hand.board_cards@.len() - i,
        {
            board.push(hand.board_cards[i].rank_suit_string());
            i += 1;
        }
        GameState {
            pot_size: hand.pot,
            btn_stack: hand.btn_stack,
            bb_stack: hand.bb_stack,
            btn_added_chips_this_street: btn_added_chips,
            bb_added_chips_this_street: bb_added_chips,
            button_seat,
            sb_size: hand.sb_size,
            bb_size: hand.sb_size * 2,
            btn_hole_cards,
            bb_hole_cards,
            board_cards: board,
            available_actions: hand.streets[n - 1].get_available_actions(),
            active_player,
        }
    }

    /// Plays `action` for `from_seat`. A finished table and a seat out of
    /// turn are refused and nothing changes; otherwise the hand takes the
    /// action. When it ends, the next hand is dealt from a fresh deck with the
    /// button passed to the other seat, each seat keeping the stack it won or
    /// lost; if one of those stacks cannot post its blind, the table finishes.
    pub fn submit_action(&mut self, action: Action, from_seat: u8) -> (r: Result<
        Option<HandResult>,
        String,
    >)
        requires
            old(self).wf(),
        ensures
            final(self).wf(),
            ({
                let h = old(self).current_hand;
                let turn = h.current().tally().active;
                if old(self).finished {
                    &&& r is Err
                    &&& r->Err_0@ == "The game is over"@
                    &&& *final(self) == *old(self)
                } else if position_of(from_seat, old(self).button_seat) != turn {
                    &&& r is Err
                    &&& r->Err_0@ == "It is not your turn to act"@
                    &&& *final(self) == *old(self)
                } else if r is Ok && r->Ok_0 is Some {
                    let res = r->Ok_0->Some_0;
                    &&& exists|next: Hand| next.wf() && h.advances(next, action, r)
                    &&& if covers_blinds(res.bb_next_hand_stack, res.btn_next_hand_stack, h.sb_size) {
                        &&& final(self).fresh(
                            res.bb_next_hand_stack,
                            res.btn_next_hand_stack,
                            h.sb_size,
                        )
                        &&& final(self).button_seat == 1 - old(self).button_seat
                        &&& final(self).current_hand.btn_start_stack
                            + final(self).current_hand.bb_start_stack == h.btn_start_stack
                            + h.bb_start_stack
                    } else {
                        &&& final(self).finished
                        &&& final(self).button_seat == old(self).button_seat
                        &&& h.advances(final(self).current_hand, action, r)
                    }
                } else {
                    &&& h.advances(final(self).current_hand, action, r)
                    &&& final(self).button_seat == old(self).button_seat
                    &&& !final(self).finished
                }
            }),
    {
        if self.finished {
            return Err("The game is over".to_string());
        }
        let n = self.current_hand.streets.len();
        proof {
            assert(self.current_hand.streets@[n - 1].wf());
        }
        let (_, _, _, active_player) = self.current_hand.streets[n - 1].get_street_status();
        let player_position = if from_seat == self.button_seat {
            Position::Button
        } else {
            Position::BigBlind
        };
        if player_position != active_player {
            return Err("It is not your turn to act".to_string());
        }
        let sb_size = self.current_hand.sb_size;
        let result = self.current_hand.submit_action(action);
        let ghost played = self.current_hand;
        match result {
            Ok(Some(res)) => {
                proof {
                    lemma_settlement_conserves(played, res.winner);
                }
                // Roles swap: the big blind of this hand is the next button.
                let next_btn = res.bb_next_hand_stack;
                let next_bb = res.btn_next_hand_stack;
                if next_btn >= sb_size && next_bb >= 2 * sb_size {
                    let deck: Vec<Card> = poker::deck::shuffled();
                    self.current_hand = Hand::new(deck, next_btn, next_bb, sb_size);
                    self.button_seat = 1 - self.button_seat;
                } else {
                    self.finished = true;
                }
                Ok(Some(res))
            },
            Ok(None) => Ok(None),
            Err(e) => Err(e),
        }
    }
}

} // verus!
