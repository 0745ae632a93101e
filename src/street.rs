use vstd::prelude::*;

use crate::common::{other, other_player, Position};

verus! {

/// The largest stack or opening raise a street accepts: twice it still fits
/// in a `u64`, so every raise-to computed on a street does too.
pub const CHIP_LIMIT: u64 = 0x7fff_ffff_ffff_ffff;

/// A player's move. Every amount is the player's total stake on the street
/// after the move ("to", not "by").
#[derive(Copy, Clone, Debug, PartialEq, Eq, Structural)]
pub enum Action {
    Fold,
    Check,
    PostBlind(u64),
    Call(u64),
    Bet(u64),
    Raise(u64),
}

#[derive(Copy, Clone, Debug, PartialEq, Eq, Structural)]
pub enum StreetName {
    Preflop,
    Flop,
    Turn,
    River,
    End,
}

/// A legal move on offer. `Bet` and `Raise` carry the inclusive bounds of the
/// resulting stake.
#[derive(Copy, Clone, Debug, PartialEq, Eq, Structural)]
pub enum ActionOption {
    Fold,
    Check,
    PostBlind(u64),
    Call(u64),
    Bet(u64, u64),
    Raise(u64, u64),
}

/// What an accepted move does to the street.
#[derive(Copy, Clone, Debug, PartialEq, Eq, Structural)]
pub enum ActionResult {
    BettingOpen,
    BettingClosed,
    /// The position that folded.
    Fold(Position),
}

/// The ledger of one betting round.
#[derive(Debug, Clone)]
pub struct Street {
    pub street: StreetName,
    pub actions: Vec<Action>,
    pub min_open_raise: u64,
    /// Stacks when the street began.
    pub btn_start_stack: u64,
    pub bb_start_stack: u64,
    /// Stacks after everything put in on this street so far.
    pub btn_stack: u64,
    pub bb_stack: u64,
}

/// What replaying a street's actions gives: each position's stake on the
/// street, the smallest legal bet or raise-to, and whose turn it is.
pub struct Tally {
    pub btn: int,
    pub bb: int,
    pub min_raise: int,
    pub active: Position,
}

pub open spec fn max_int(a: int, b: int) -> int {
    if a >= b { a } else { b }
}

pub open spec fn min_int(a: int, b: int) -> int {
    if a <= b { a } else { b }
}

/// Button acts first before the flop, the big blind on every later street.
pub open spec fn first_to_act(name: StreetName) -> Position {
    match name {
        StreetName::Preflop => Position::Button,
        _ => Position::BigBlind,
    }
}

pub open spec fn stake_of(t: Tally, p: Position) -> int {
    match p {
        Position::Button => t.btn,
        Position::BigBlind => t.bb,
    }
}

/// The active player's stake becomes `x`, the floor for the next raise
/// becomes `min_raise`, and the turn passes.
pub open spec fn with_stake(t: Tally, x: int, min_raise: int) -> Tally {
    Tally {
        btn: if t.active == Position::Button { x } else { t.btn },
        bb: if t.active == Position::BigBlind { x } else { t.bb },
        min_raise,
        active: other(t.active),
    }
}

/// One action applied to a tally.
pub open spec fn step(t: Tally, a: Action) -> Tally {
    match a {
        Action::Fold => Tally { active: other(t.active), ..t },
        Action::Check => Tally { active: other(t.active), ..t },
        Action::PostBlind(x) => with_stake(t, x as int, 2 * x),
        Action::Call(x) => with_stake(t, x as int, t.min_raise),
        Action::Bet(x) => with_stake(t, x as int, 2 * x),
        Action::Raise(x) => {
            let prior = max_int(t.btn, t.bb);
            with_stake(t, x as int, prior + 2 * (x - prior))
        },
    }
}

/// The tally after replaying `hist` from the start of a street.
pub open spec fn replay(first: Position, min_open: int, hist: Seq<Action>) -> Tally
    decreases hist.len(),
{
    if hist.len() == 0 {
        Tally { btn: 0, bb: 0, min_raise: min_open, active: first }
    } else {
        step(replay(first, min_open, hist.drop_last()), hist.last())
    }
}

/// Whether the option `o` lets a player make the move `a`.
pub open spec fn admits(o: ActionOption, a: Action) -> bool {
    match (o, a) {
        (ActionOption::Fold, Action::Fold) => true,
        (ActionOption::Check, Action::Check) => true,
        (ActionOption::PostBlind(x), Action::PostBlind(y)) => x == y,
        (ActionOption::Call(x), Action::Call(y)) => x == y,
        (ActionOption::Bet(lo, hi), Action::Bet(y)) => lo <= y && y <= hi,
        (ActionOption::Raise(lo, hi), Action::Raise(y)) => lo <= y && y <= hi,
        _ => false,
    }
}

/// Whether one of the options in `opts` lets a player make the move `a`.
pub open spec fn admitted(opts: Seq<ActionOption>, a: Action) -> bool {
    exists|i: int| 0 <= i < opts.len() && #[trigger] admits(opts[i], a)
}

pub open spec fn offer(c: bool, o: ActionOption) -> Seq<ActionOption> {
    if c {
        seq![o]
    } else {
        Seq::empty()
    }
}

impl Street {
    /// The tally after `hist`, replayed from this street's start.
    pub open spec fn tally_of(self, hist: Seq<Action>) -> Tally {
        replay(first_to_act(self.street), self.min_open_raise as int, hist)
    }

    pub open spec fn tally(self) -> Tally {
        self.tally_of(self.actions@)
    }

    pub open spec fn start_of(self, p: Position) -> int {
        match p {
            Position::Button => self.btn_start_stack as int,
            Position::BigBlind => self.bb_start_stack as int,
        }
    }

    /// The options on offer after `hist`. Before the flop the first two moves
    /// are the blinds: the small blind, then the big blind.
    pub open spec fn options_at(self, hist: Seq<Action>) -> Seq<ActionOption> {
        if self.street == StreetName::Preflop && hist.len() == 0 {
            seq![ActionOption::PostBlind(self.min_open_raise / 2)]
        } else if self.street == StreetName::Preflop && hist.len() == 1 {
            seq![ActionOption::PostBlind(self.min_open_raise)]
        } else {
            let t = self.tally_of(hist);
            let start = self.start_of(t.active);
            let stack = start - stake_of(t, t.active);
            let top = max_int(t.btn, t.bb);
            seq![ActionOption::Fold]
                + offer(t.btn == 0 && t.bb == 0, ActionOption::Bet(t.min_raise as u64, stack as u64))
                + offer(t.btn != t.bb, ActionOption::Call(min_int(top, start) as u64))
                + offer(
                    t.btn + t.bb > 0 && stack > top,
                    ActionOption::Raise(t.min_raise as u64, start as u64),
                )
                + offer(t.btn == t.bb, ActionOption::Check)
        }
    }

    pub open spec fn options(self) -> Seq<ActionOption> {
        self.options_at(self.actions@)
    }

    /// Every recorded action was on offer when it was made.
    pub open spec fn legal(self) -> bool {
        forall|i: int|
            0 <= i < self.actions@.len() ==> admitted(
                #[trigger] self.options_at(self.actions@.take(i)),
                self.actions@[i],
            )
    }

    /// Amounts stay below `CHIP_LIMIT`, and before the flop each stack covers
    /// its blind.
    pub open spec fn bounded(self) -> bool {
        &&& self.min_open_raise <= CHIP_LIMIT
        &&& self.btn_start_stack <= CHIP_LIMIT
        &&& self.bb_start_stack <= CHIP_LIMIT
        &&& self.street == StreetName::Preflop ==> self.min_open_raise / 2 <= self.btn_start_stack
            && self.min_open_raise <= self.bb_start_stack
    }

    /// The stakes stay within the start stacks and below the next raise floor.
    pub open spec fn tally_ok(self, t: Tally) -> bool {
        &&& 0 <= t.btn <= self.btn_start_stack
        &&& 0 <= t.bb <= self.bb_start_stack
        &&& max_int(t.btn, t.bb) <= t.min_raise <= 2 * CHIP_LIMIT
    }

    pub open spec fn wf(self) -> bool {
        &&& self.bounded()
        &&& self.legal()
        &&& self.btn_stack == self.btn_start_stack - self.tally().btn
        &&& self.bb_stack == self.bb_start_stack - self.tally().bb
    }

    /// Same street, same raise floor, same start stacks.
    pub open spec fn same_setup(self, o: Street) -> bool {
        &&& self.street == o.street
        &&& self.min_open_raise == o.min_open_raise
        &&& self.btn_start_stack == o.btn_start_stack
        &&& self.bb_start_stack == o.bb_start_stack
    }

    /// How an accepted action `a` leaves the round.
    pub open spec fn outcome(self, a: Action) -> ActionResult {
        let active = self.tally().active;
        match a {
            Action::Fold => ActionResult::Fold(active),
            Action::Check => if active == other(first_to_act(self.street)) {
                ActionResult::BettingClosed
            } else {
                ActionResult::BettingOpen
            },
            Action::Call(x) => if self.street == StreetName::Preflop && active == Position::Button
                && x == self.min_open_raise {
                ActionResult::BettingOpen
            } else {
                ActionResult::BettingClosed
            },
            _ => ActionResult::BettingOpen,
        }
    }

    /// What an option on offer says about the action it admits.
    proof fn lemma_admitted(self, hist: Seq<Action>, a: Action)
        requires
            self.bounded(),
            self.tally_ok(self.tally_of(hist)),
            admitted(self.options_at(hist), a),
        ensures
            ({
                let t = self.tally_of(hist);
                let start = self.start_of(t.active);
                let stack = start - stake_of(t, t.active);
                let top = max_int(t.btn, t.bb);
                let blinds = self.street == StreetName::Preflop && hist.len() < 2;
                &&& blinds ==> (a is PostBlind)
                &&& (a is PostBlind && hist.len() == 0) ==> a->PostBlind_0 == self.min_open_raise
                    / 2 && a->PostBlind_0 <= self.btn_start_stack
                &&& (a is PostBlind && hist.len() != 0) ==> a->PostBlind_0 == self.min_open_raise
                    && a->PostBlind_0 <= self.bb_start_stack
                &&& (a is PostBlind) ==> blinds
                &&& (a is Check) ==> t.btn == t.bb
                &&& (a is Call) ==> t.btn != t.bb && a->Call_0 == min_int(top, start)
                &&& (a is Bet) ==> t.btn == 0 && t.bb == 0 && t.min_raise <= a->Bet_0 <= stack
                &&& (a is Raise) ==> t.btn + t.bb > 0 && stack > top && t.min_raise <= a->Raise_0
                    <= start
            }),
    {
        let opts = self.options_at(hist);
        let i = choose|i: int| 0 <= i < opts.len() && #[trigger] admits(opts[i], a);
        let t = self.tally_of(hist);
        if !(self.street == StreetName::Preflop && hist.len() < 2) {
            let start = self.start_of(t.active);
            let stack = start - stake_of(t, t.active);
            let top = max_int(t.btn, t.bb);
            let s1 = seq![ActionOption::Fold];
            let s2 = offer(t.btn == 0 && t.bb == 0, ActionOption::Bet(t.min_raise as u64, stack as u64));
            let s3 = offer(t.btn != t.bb, ActionOption::Call(min_int(top, start) as u64));
            let s4 = offer(
                t.btn + t.bb > 0 && stack > top,
                ActionOption::Raise(t.min_raise as u64, start as u64),
            );
            let s5 = offer(t.btn == t.bb, ActionOption::Check);
            assert(opts == s1 + s2 + s3 + s4 + s5);
            let k = i - s1.len();
            if i < 1 {
            } else if k < s2.len() {
                assert(opts[i] == s2[k]);
            } else if k - s2.len() < s3.len() {
                assert(opts[i] == s3[k - s2.len()]);
            } else if k - s2.len() - s3.len() < s4.len() {
                assert(opts[i] == s4[k - s2.len() - s3.len()]);
            } else {
                assert(opts[i] == s5[k - s2.len() - s3.len() - s4.len()]);
            }
        }
    }

    /// A legal action keeps the tally within its bounds.
    proof fn lemma_step_ok(self, hist: Seq<Action>, a: Action)
        requires
            self.bounded(),
            self.tally_ok(self.tally_of(hist)),
            self.blind_ok(hist),
            admitted(self.options_at(hist), a),
        ensures
            self.tally_ok(self.tally_of(hist.push(a))),
    {
        self.lemma_admitted(hist, a);
        assert(hist.push(a).drop_last() =~= hist);
        lemma_turns(first_to_act(self.street), self.min_open_raise as int, hist);
        let t = self.tally_of(hist);
        let n = self.tally_of(hist.push(a));
        assert(n == step(t, a));
        match a {
            Action::PostBlind(x) => {
                assert(self.min_open_raise / 2 <= self.min_open_raise);
            },
            Action::Call(x) => {
                assert(x <= max_int(t.btn, t.bb));
            },
            Action::Raise(x) => {
                let prior = max_int(t.btn, t.bb);
                assert(prior + 2 * (x - prior) >= x);
                assert(prior + 2 * (x - prior) <= 2 * x);
            },
            _ => {},
        }
    }

    /// Once the small blind is in, the button's stake is at most the big blind.
    pub open spec fn blind_ok(self, hist: Seq<Action>) -> bool {
        (self.street == StreetName::Preflop && hist.len() == 1) ==> self.tally_of(hist).btn
            <= self.min_open_raise
    }

    proof fn lemma_blind_ok(self, i: int)
        requires
            self.bounded(),
            self.legal(),
            0 <= i <= self.actions@.len(),
        ensures
            self.blind_ok(self.actions@.take(i)),
    {
        if self.street == StreetName::Preflop && i == 1 {
            let h = self.actions@.take(0);
            assert(h =~= Seq::<Action>::empty());
            assert(self.actions@.take(1) =~= h.push(self.actions@[0]));
            assert(admitted(self.options_at(h), self.actions@[0]));
            self.lemma_admitted(h, self.actions@[0]);
            assert(self.actions@.take(1).drop_last() =~= h);
        }
    }

    /// Every prefix of a well-formed street has a tally within bounds.
    proof fn lemma_prefix_ok(self, i: int)
        requires
            self.bounded(),
            self.legal(),
            0 <= i <= self.actions@.len(),
        ensures
            self.tally_ok(self.tally_of(self.actions@.take(i))),
        decreases i,
    {
        if i > 0 {
            self.lemma_prefix_ok(i - 1);
            let h = self.actions@.take(i - 1);
            assert(self.actions@.take(i) =~= h.push(self.actions@[i - 1]));
            assert(admitted(self.options_at(h), self.actions@[i - 1]));
            self.lemma_blind_ok(i - 1);
            self.lemma_step_ok(h, self.actions@[i - 1]);
        } else {
            assert(self.actions@.take(0) =~= Seq::<Action>::empty());
        }
    }

    /// The tally of a legal street stays within bounds.
    pub(crate) proof fn lemma_wf_tally(self)
        requires
            self.bounded(),
            self.legal(),
        ensures
            self.tally_ok(self.tally()),
    {
        self.lemma_prefix_ok(self.actions@.len() as int);
        assert(self.actions@.take(self.actions@.len() as int) =~= self.actions@);
    }
}

impl Street {
    pub fn new(street: StreetName, min_open_raise: u64, btn_start_stack: u64, bb_start_stack: u64) -> (r:
        Street)
        requires
            min_open_raise <= CHIP_LIMIT,
            btn_start_stack <= CHIP_LIMIT,
            bb_start_stack <= CHIP_LIMIT,
            street == StreetName::Preflop ==> min_open_raise / 2 <= btn_start_stack
                && min_open_raise <= bb_start_stack,
        ensures
            r.wf(),
            r.street == street,
            r.actions@ == Seq::<Action>::empty(),
            r.min_open_raise == min_open_raise,
            r.btn_start_stack == btn_start_stack,
            r.bb_start_stack == bb_start_stack,
            r.btn_stack == btn_start_stack,
            r.bb_stack == bb_start_stack,
    {
        Street {
            street,
            actions: Vec::new(),
            min_open_raise,
            btn_start_stack,
            bb_start_stack,
            btn_stack: btn_start_stack,
            bb_stack: bb_start_stack,
        }
    }

    pub fn get_first_to_act(&self) -> (r: Position)
        ensures
            r == first_to_act(self.street),
    {
        match self.street {
            StreetName::Preflop => Position::Button,
            _ => Position::BigBlind,
        }
    }

    /// Replays the street: the button's stake, the big blind's stake, the
    /// smallest legal bet or raise-to, and the position to act.
    pub fn get_street_status(&self) -> (r: (u64, u64, u64, Position))
        requires
            self.bounded(),
            self.legal(),
        ensures
            r.0 == self.tally().btn,
            r.1 == self.tally().bb,
            r.2 == self.tally().min_raise,
            r.3 == self.tally().active,
    {
        let mut active_player = self.get_first_to_act();
        let mut btn_added_chips: u64 = 0;
        let mut bb_added_chips: u64 = 0;
        let mut minimum_raise_size: u64 = self.min_open_raise;
        let mut i: usize = 0;
        while i < self.actions.len()
            invariant
                self.bounded(),
                self.legal(),
                0 <= i <= self.actions@.len(),
                btn_added_chips == self.tally_of(self.actions@.take(i as int)).btn,
                bb_added_chips == self.tally_of(self.actions@.take(i as int)).bb,
                minimum_raise_size == self.tally_of(self.actions@.take(i as int)).min_raise,
                active_player == self.tally_of(self.actions@.take(i as int)).active,
            decreases self.actions@.len() - i,
        {
            let ghost hist = self.actions@.take(i as int);
            proof {
                self.lemma_prefix_ok(i as int);
                self.lemma_blind_ok(i as int);
                assert(admitted(self.options_at(hist), self.actions@[i as int]));
                self.lemma_admitted(hist, self.actions@[i as int]);
                assert(self.actions@.take(i + 1).drop_last() =~= hist);
            }
            let action = self.actions[i];
            let bigger_added_chips_before_action = if btn_added_chips >= bb_added_chips {
                btn_added_chips
            } else {
                bb_added_chips
            };
            let mut stake: Option<u64> = None;
            match action {
                Action::Fold => {},
                Action::Check => {},
                Action::Call(amount) => {
                    stake = Some(amount);
                },
                Action::PostBlind(amount) => {
                    stake = Some(amount);
                    minimum_raise_size = 2 * amount;
                },
                Action::Bet(amount) => {
                    stake = Some(amount);
                    minimum_raise_size = 2 * amount;
                },
                Action::Raise(amount) => {
                    let raise_by_amount = amount - bigger_added_chips_before_action;
                    minimum_raise_size = bigger_added_chips_before_action + 2 * raise_by_amount;
                    stake = Some(amount);
                },
            }
            if let Some(amount) = stake {
                match active_player {
                    Position::Button => {
                        btn_added_chips = amount;
                    },
                    Position::BigBlind => {
                        bb_added_chips = amount;
                    },
                }
            }
            active_player = other_player(active_player);
            i += 1;
        }
        proof {
            assert(self.actions@.take(self.actions@.len() as int) =~= self.actions@);
        }
        (btn_added_chips, bb_added_chips, minimum_raise_size, active_player)
    }

    /// The options open to the position whose turn it is.
    pub fn get_available_actions(&self) -> (r: Vec<ActionOption>)
        requires
            self.wf(),
        ensures
            r@ == self.options(),
    {
        if self.street == StreetName::Preflop {
            if self.actions.len() == 0 {
                let mut blind = Vec::new();
                blind.push(ActionOption::PostBlind(self.min_open_raise / 2));
                proof {
                    assert(blind@ =~= self.options());
                }
                return blind;
            } else if self.actions.len() == 1 {
                let mut blind = Vec::new();
                blind.push(ActionOption::PostBlind(self.min_open_raise));
                proof {
                    assert(blind@ =~= self.options());
                }
                return blind;
            }
        }
        let (btn_added_chips, bb_added_chips, minimum_raise_size, active_player) =
            self.get_street_status();
        proof {
            self.lemma_wf_tally();
        }
        let active_player_stack = match active_player {
            Position::Button => self.btn_stack,
            Position::BigBlind => self.bb_stack,
        };
        let active_player_initial_stack = match active_player {
            Position::Button => self.btn_start_stack,
            Position::BigBlind => self.bb_start_stack,
        };
        let bigger = if btn_added_chips >= bb_added_chips {
            btn_added_chips
        } else {
            bb_added_chips
        };
        let ghost t = self.tally();
        let mut valid_actions = Vec::<ActionOption>::new();
        valid_actions.push(ActionOption::Fold);
        let ghost s1 = valid_actions@;
        if btn_added_chips == 0 && bb_added_chips == 0 {
            valid_actions.push(ActionOption::Bet(minimum_raise_size, active_player_stack));
        }
        let ghost s2 = valid_actions@;
        if btn_added_chips != bb_added_chips {
            let amount = if bigger <= active_player_initial_stack {
                bigger
            } else {
                active_player_initial_stack
            };
            valid_actions.push(ActionOption::Call(amount));
        }
        let ghost s3 = valid_actions@;
        if btn_added_chips + bb_added_chips > 0 && active_player_stack > bigger {
            valid_actions.push(ActionOption::Raise(minimum_raise_size, active_player_initial_stack));
        }
        let ghost s4 = valid_actions@;
        if btn_added_chips == bb_added_chips {
            valid_actions.push(ActionOption::Check);
        }
        proof {
            let start = self.start_of(t.active);
            let stack = start - stake_of(t, t.active);
            let top = max_int(t.btn, t.bb);
            assert(s1 =~= seq![ActionOption::Fold]);
            assert(s2 =~= s1 + offer(t.btn == 0 && t.bb == 0, ActionOption::Bet(t.min_raise as u64, stack as u64)));
            assert(s3 =~= s2 + offer(t.btn != t.bb, ActionOption::Call(min_int(top, start) as u64)));
            assert(s4 =~= s3 + offer(
                t.btn + t.bb > 0 && stack > top,
                ActionOption::Raise(t.min_raise as u64, start as u64),
            ));
            assert(valid_actions@ =~= s4 + offer(t.btn == t.bb, ActionOption::Check));
        }
        valid_actions
    }

    /// Whether `action` is one of the moves on offer.
    pub fn is_valid_action(&self, action: Action) -> (r: bool)
        requires
            self.wf(),
        ensures
            r == admitted(self.options(), action),
    {
        let available_actions = self.get_available_actions();
        let mut i: usize = 0;
        while i < available_actions.len()
            invariant
                available_actions@ == self.options(),
                0 <= i <= available_actions@.len(),
                forall|j: int| 0 <= j < i ==> !admits(#[trigger] available_actions@[j], action),
            decreases available_actions@.len() - i,
        {
            if option_admits(available_actions[i], action) {
                return true;
            }
            i += 1;
        }
        false
    }

    /// Records `action` if it is on offer and says how it leaves the round;
    /// anything else is refused and changes nothing.
    pub fn submit_action(&mut self, action: Action) -> (r: Result<ActionResult, String>)
        requires
            old(self).wf(),
        ensures
            final(self).wf(),
            r is Ok <==> admitted(old(self).options(), action),
            r is Err ==> *final(self) == *old(self) && r->Err_0@ == "Invalid action"@,
            r is Ok ==> {
                &&& final(self).same_setup(*old(self))
                &&& final(self).actions@ == old(self).actions@.push(action)
                &&& r == Ok::<ActionResult, String>(old(self).outcome(action))
            },
    {
        if !self.is_valid_action(action) {
            return Err("Invalid action".to_string());
        }
        let (_, _, _, active_player) = self.get_street_status();
        let last_to_act = other_player(self.get_first_to_act());
        let ghost before = *self;
        proof {
            self.lemma_wf_tally();
            self.lemma_blind_ok(self.actions@.len() as int);
            assert(self.actions@.take(self.actions@.len() as int) =~= self.actions@);
            self.lemma_step_ok(self.actions@, action);
        }
        self.actions.push(action);
        proof {
            assert forall|i: int| 0 <= i < self.actions@.len() implies admitted(
                #[trigger] self.options_at(self.actions@.take(i)),
                self.actions@[i],
            ) by {
                if i < before.actions@.len() {
                    assert(self.actions@.take(i) =~= before.actions@.take(i));
                    assert(before.options_at(before.actions@.take(i)) == self.options_at(
                        self.actions@.take(i),
                    ));
                } else {
                    assert(self.actions@.take(i) =~= before.actions@);
                }
            }
            assert(self.tally() == before.tally_of(before.actions@.push(action)));
        }
        let mut result = ActionResult::BettingOpen;
        match action {
            Action::Fold => {
                result = ActionResult::Fold(active_player);
            },
            Action::Check => {
                if active_player == last_to_act {
                    result = ActionResult::BettingClosed;
                }
            },
            Action::Call(amount) => {
                if self.street == StreetName::Preflop && active_player == Position::Button
                    && amount == self.min_open_raise {
                    // the button limped: the big blind keeps the option
                } else {
                    result = ActionResult::BettingClosed;
                }
            },
            _ => {},
        }
        let (btn_added_chips, bb_added_chips, _, _) = self.get_street_status();
        let ghost pushed = *self;
        self.btn_stack = self.btn_start_stack - btn_added_chips;
        self.bb_stack = self.bb_start_stack - bb_added_chips;
        proof {
            assert forall|i: int| 0 <= i < self.actions@.len() implies admitted(
                #[trigger] self.options_at(self.actions@.take(i)),
                self.actions@[i],
            ) by {
                assert(pushed.options_at(pushed.actions@.take(i)) == self.options_at(
                    self.actions@.take(i),
                ));
            }
        }
        Ok(result)
    }
}

/// Whether the option `o` lets a player make the move `a`.
fn option_admits(o: ActionOption, a: Action) -> (r: bool)
    ensures
        r == admits(o, a),
{
    match (o, a) {
        (ActionOption::Fold, Action::Fold) => true,
        (ActionOption::Check, Action::Check) => true,
        (ActionOption::PostBlind(x), Action::PostBlind(y)) => x == y,
        (ActionOption::Call(x), Action::Call(y)) => x == y,
        (ActionOption::Bet(lo, hi), Action::Bet(y)) => lo <= y && y <= hi,
        (ActionOption::Raise(lo, hi), Action::Raise(y)) => lo <= y && y <= hi,
        _ => false,
    }
}

/// Each action, whatever it is, passes the turn to the other position.
pub proof fn lemma_turns(first: Position, min_open: int, hist: Seq<Action>)
    ensures
        replay(first, min_open, hist).active == if hist.len() % 2 == 0 {
            first
        } else {
            other(first)
        },
    decreases hist.len(),
{
    if hist.len() > 0 {
        lemma_turns(first, min_open, hist.drop_last());
    }
}

/// Turn alternation: a street's first turn belongs to its designated
/// first-to-act, and every action passes the turn to the other position.
pub proof fn lemma_turn_alternation(s: Street, hist: Seq<Action>, a: Action)
    ensures
        s.tally_of(Seq::empty()).active == first_to_act(s.street),
        s.tally_of(hist.push(a)).active == other(s.tally_of(hist).active),
{
    assert(hist.push(a).drop_last() =~= hist);
}

/// After a bet to `b` the smallest legal raise-to is `2b`; after a raise to
/// `r` over a prior top stake `p` it is `r + (r - p)`.
pub proof fn lemma_min_raise(s: Street, hist: Seq<Action>, amount: u64)
    ensures
        s.tally_of(hist.push(Action::Bet(amount))).min_raise == 2 * amount,
        ({
            let t = s.tally_of(hist);
            let p = max_int(t.btn, t.bb);
            s.tally_of(hist.push(Action::Raise(amount))).min_raise == amount + (amount - p)
        }),
{
    assert(hist.push(Action::Bet(amount)).drop_last() =~= hist);
    assert(hist.push(Action::Raise(amount)).drop_last() =~= hist);
}

/// On a well-formed street the two stacks and the two stakes add up to the
/// two start stacks.
pub proof fn lemma_street_conservation(s: Street)
    requires
        s.wf(),
    ensures
        s.btn_stack + s.bb_stack + s.tally().btn + s.tally().bb == s.btn_start_stack
            + s.bb_start_stack,
{
}

} // verus!
