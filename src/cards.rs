//! Cards, decks and hand evaluation come from the `poker` crate. A card is
//! carried through the library as it is: the betting logic never looks
//! inside one.
use vstd::prelude::*;

use poker::{Card, Eval, Evaluator, FiveCard};

verus! {

/// `poker::Card`, carried through unopened.
#[verifier::external_type_specification]
#[verifier::external_body]
pub struct ExCard(poker::Card);

/// `poker::Evaluator`, the evaluator with its lookup tables.
#[verifier::external_type_specification]
#[verifier::external_body]
pub struct ExEvaluator(poker::Evaluator);

/// `poker::FiveCard`, the marker for five-card evaluations.
#[verifier::external_type_specification]
#[verifier::external_body]
pub struct ExFiveCard(poker::FiveCard);

/// `poker::Eval`, an evaluated hand, carried through unopened.
#[verifier::external_type_specification]
#[verifier::external_body]
#[verifier::reject_recursive_types(P)]
pub struct ExEval<P>(poker::Eval<P>);

/// No card occurs twice.
pub open spec fn distinct(cards: Seq<Card>) -> bool {
    cards.no_duplicates()
}

/// The evaluation `poker::Evaluator::evaluate_five` gives for `cards`.
pub uninterp spec fn evaluation(cards: Seq<Card>) -> Eval<FiveCard>;

/// Whether `poker::Eval::is_better_than` says `e` beats `rival`.
pub uninterp spec fn beats(e: Eval<FiveCard>, rival: Eval<FiveCard>) -> bool;

/// The two-character text `poker::Card::rank_suit_string` gives for `card`.
pub uninterp spec fn card_text(card: Card) -> Seq<char>;

/// Relies on `poker::deck::shuffled`: every card of the standard 52-card
/// deck once, in random order.
pub assume_specification[ poker::deck::shuffled ]() -> (r: Vec<Card>)
    ensures
        r@.len() == 52,
        distinct(r@),
;

/// Relies on `poker::Evaluator::new`, which builds the lookup tables.
pub assume_specification[ poker::Evaluator::new ]() -> Evaluator;

/// Relies on `poker::Card::rank_suit_string`: the two-character form of a card.
pub assume_specification[ poker::Card::rank_suit_string ](card: Card) -> (r: String)
    ensures
        r@ == card_text(card),
        r@.len() == 2,
;

/// Relies on `poker::Eval::is_better_than`: whether the first evaluation beats
/// the second. It compares the hand ranks strictly, so two evaluations never
/// beat each other.
pub assume_specification[ poker::Eval::<FiveCard>::is_better_than ](
    e: Eval<FiveCard>,
    rival: Eval<FiveCard>,
) -> (r: bool)
    ensures
        r == beats(e, rival),
        r ==> !beats(rival, e),
;

/// Relies on `poker::Evaluator::evaluate_five`, which evaluates the best
/// five-card hand among five or more cards and fails only on fewer than five
/// cards or a repeated card.
#[verifier::external_body]
pub(crate) fn evaluate_hand(evaluator: &Evaluator, cards: &Vec<Card>) -> (r: Eval<FiveCard>)
    requires
        cards@.len() >= 5,
        distinct(cards@),
    ensures
        r == evaluation(cards@),
{
    evaluator.evaluate_five(cards).unwrap()
}

} // verus!
