use holdem_engine::common::{other_player, Position};
use holdem_engine::street::{Action, ActionOption, ActionResult, Street, StreetName};

#[test]
fn test_preflop_raise_raise_call() {
    let mut street = Street::new(StreetName::Preflop, 10, 1000, 2000);

    // Button's turn. Needs to post the small blind
    let actions = street.get_available_actions();

    assert_eq!(actions.len(), 1);
    assert!(actions.contains(&ActionOption::PostBlind(5)));

    assert!(street.submit_action(Action::PostBlind(5)).unwrap() == ActionResult::BettingOpen);

    // Big blind's turn. Needs to post the big blind
    let actions = street.get_available_actions();

    assert_eq!(actions.len(), 1);
    assert!(actions.contains(&ActionOption::PostBlind(10)));

    assert!(street.submit_action(Action::PostBlind(10)).unwrap() == ActionResult::BettingOpen);

    // Button's turn. Can raise, call or fold
    let actions = street.get_available_actions();
    assert_eq!(actions.len(), 3);
    assert!(actions.contains(&ActionOption::Call(10)));
    assert!(actions.contains(&ActionOption::Raise(20, 1000)));
    assert!(actions.contains(&ActionOption::Fold));

    assert!(street.submit_action(Action::Raise(50)).unwrap() == ActionResult::BettingOpen);

    // Big blind's turn. Can raise, call or fold
    let actions = street.get_available_actions();
    assert_eq!(actions.len(), 3);
    assert!(actions.contains(&ActionOption::Call(50)));
    assert!(actions.contains(&ActionOption::Raise(90, 2000)));
    assert!(actions.contains(&ActionOption::Fold));

    assert!(street.submit_action(Action::Raise(200)).unwrap() == ActionResult::BettingOpen);

    // Button's turn. Can raise, call or fold
    let actions = street.get_available_actions();
    assert_eq!(actions.len(), 3);
    assert!(actions.contains(&ActionOption::Call(200)));
    assert!(actions.contains(&ActionOption::Raise(350, 1000)));
    assert!(actions.contains(&ActionOption::Fold));

    assert!(street.submit_action(Action::Call(200)).unwrap() == ActionResult::BettingClosed);

    // Check final status
    let (btn_added_chips, bb_added_chips, _, _) = street.get_street_status();
    assert_eq!(btn_added_chips, 200);
    assert_eq!(bb_added_chips, 200);
}

#[test]
fn test_preflop_limp() {
    let mut street = Street::new(StreetName::Preflop, 10, 1000, 2000);
    assert!(street.submit_action(Action::PostBlind(5)).unwrap() == ActionResult::BettingOpen);
    assert!(street.submit_action(Action::PostBlind(10)).unwrap() == ActionResult::BettingOpen);

    // Button's turn. Can raise, call or fold
    let actions = street.get_available_actions();
    assert_eq!(actions.len(), 3);
    assert!(actions.contains(&ActionOption::Call(10)));
    assert!(actions.contains(&ActionOption::Raise(20, 1000)));
    assert!(actions.contains(&ActionOption::Fold));

    assert!(street.submit_action(Action::Call(10)).unwrap() == ActionResult::BettingOpen);

    // Big blind's turn. Can check, raise, or fold
    let actions = street.get_available_actions();
    assert_eq!(actions.len(), 3);
    assert!(actions.contains(&ActionOption::Check));
    assert!(actions.contains(&ActionOption::Raise(20, 2000)));
    assert!(actions.contains(&ActionOption::Fold));

    // Raising keeps the action open (on a clone, so the street itself is untouched)
    assert!(street.clone().submit_action(Action::Raise(150)).unwrap() == ActionResult::BettingOpen);

    // Checking closes the action
    assert!(street.submit_action(Action::Check).unwrap() == ActionResult::BettingClosed);

    // Check final status
    let (btn_added_chips, bb_added_chips, _, _) = street.get_street_status();
    assert_eq!(btn_added_chips, 10);
    assert_eq!(bb_added_chips, 10);
}

#[test]
fn test_bet_raise_all_in_call_on_flop() {
    // Sequence: bb bets 10, btn raises to 100, bb goes all in, btn calls
    let mut street = Street::new(StreetName::Flop, 10, 1000, 2000);

    // Big blind's turn
    let actions = street.get_available_actions();
    assert_eq!(actions.len(), 3);
    assert!(actions.contains(&ActionOption::Check));
    assert!(actions.contains(&ActionOption::Bet(10, 2000)));
    assert!(actions.contains(&ActionOption::Fold));

    let (btn_added_chips, bb_added_chips, _, active_player) = street.get_street_status();
    assert_eq!(btn_added_chips, 0);
    assert_eq!(bb_added_chips, 0);
    assert_eq!(street.btn_stack, 1000);
    assert_eq!(street.bb_stack, 2000);
    assert_eq!(active_player, Position::BigBlind);

    match street.submit_action(Action::Bet(10)) {
        Ok(ActionResult::BettingOpen) => (),
        _ => assert!(false),
    }

    // Button's turn
    let actions = street.get_available_actions();
    assert_eq!(actions.len(), 3);
    assert!(street.get_available_actions().contains(&ActionOption::Call(10)));
    assert!(street.get_available_actions().contains(&ActionOption::Raise(20, 1000)));
    assert!(street.get_available_actions().contains(&ActionOption::Fold));

    let (btn_added_chips, bb_added_chips, _, active_player) = street.get_street_status();
    assert_eq!(btn_added_chips, 0);
    assert_eq!(bb_added_chips, 10);
    assert_eq!(street.btn_stack, 1000);
    assert_eq!(street.bb_stack, 1990);
    assert_eq!(active_player, Position::Button);

    match street.submit_action(Action::Raise(100)) {
        Ok(ActionResult::BettingOpen) => (),
        _ => assert!(false),
    }

    // Big blinds's turn
    let actions = street.get_available_actions();
    assert_eq!(actions.len(), 3);
    assert!(street.get_available_actions().contains(&ActionOption::Call(100)));
    assert!(street.get_available_actions().contains(&ActionOption::Raise(190, 2000)));
    assert!(street.get_available_actions().contains(&ActionOption::Fold));

    let (btn_added_chips, bb_added_chips, _, active_player) = street.get_street_status();
    assert_eq!(btn_added_chips, 100);
    assert_eq!(bb_added_chips, 10);
    assert_eq!(street.btn_stack, 900);
    assert_eq!(street.bb_stack, 1990);
    assert_eq!(active_player, Position::BigBlind);

    match street.submit_action(Action::Raise(2000)) {
        // All in
        Ok(ActionResult::BettingOpen) => (),
        _ => assert!(false),
    }

    // Button's turn
    let actions = street.get_available_actions();
    assert_eq!(actions.len(), 2);
    // The raise was to 2000 but the button has only 1000
    assert!(street.get_available_actions().contains(&ActionOption::Call(1000)));
    assert!(street.get_available_actions().contains(&ActionOption::Fold));

    let (btn_added_chips, bb_added_chips, _, active_player) = street.get_street_status();
    assert_eq!(btn_added_chips, 100);
    assert_eq!(bb_added_chips, 2000);
    assert_eq!(street.btn_stack, 900);
    assert_eq!(street.bb_stack, 0);
    assert_eq!(active_player, Position::Button);

    match street.submit_action(Action::Call(1000)) {
        Ok(ActionResult::BettingClosed) => (),
        _ => assert!(false),
    }

    // Check the final state
    let (btn_added_chips, bb_added_chips, _, _) = street.get_street_status();
    assert_eq!(btn_added_chips, 1000);
    assert_eq!(bb_added_chips, 2000); // Returning the extra 1000 is not the street's job
    assert_eq!(street.btn_stack, 0);
    assert_eq!(street.bb_stack, 0);
}

#[test]
fn test_check_check_on_the_flop() {
    let mut street = Street::new(StreetName::Flop, 10, 1000, 2000);

    let actions = street.get_available_actions();
    assert_eq!(actions.len(), 3);
    assert!(actions.contains(&ActionOption::Check));
    assert!(actions.contains(&ActionOption::Bet(10, 2000)));
    assert!(actions.contains(&ActionOption::Fold));

    assert_eq!(street.submit_action(Action::Check).unwrap(), ActionResult::BettingOpen);
    assert_eq!(street.submit_action(Action::Check).unwrap(), ActionResult::BettingClosed);

    let (btn_added_chips, bb_added_chips, _, _) = street.get_street_status();
    assert_eq!(btn_added_chips, 0);
    assert_eq!(bb_added_chips, 0);
    assert_eq!(street.btn_stack, 1000);
    assert_eq!(street.bb_stack, 2000);
}

#[test]
fn options_in_order_after_blinds() {
    let mut street = Street::new(StreetName::Preflop, 10, 500, 600);
    street.submit_action(Action::PostBlind(5)).unwrap();
    street.submit_action(Action::PostBlind(10)).unwrap();
    assert_eq!(street.btn_stack, 495);
    assert_eq!(street.bb_stack, 590);
    assert_eq!(
        street.get_available_actions(),
        vec![ActionOption::Fold, ActionOption::Call(10), ActionOption::Raise(20, 500)]
    );
}

#[test]
fn turn_alternates_on_every_action() {
    let mut street = Street::new(StreetName::Turn, 10, 1000, 1000);
    assert_eq!(street.get_street_status().3, Position::BigBlind);
    street.submit_action(Action::Check).unwrap();
    assert_eq!(street.get_street_status().3, Position::Button);
    street.submit_action(Action::Bet(30)).unwrap();
    assert_eq!(street.get_street_status().3, Position::BigBlind);
    street.submit_action(Action::Raise(90)).unwrap();
    assert_eq!(street.get_street_status().3, Position::Button);

    let mut preflop = Street::new(StreetName::Preflop, 10, 1000, 1000);
    assert_eq!(preflop.get_street_status().3, Position::Button);
    preflop.submit_action(Action::PostBlind(5)).unwrap();
    assert_eq!(preflop.get_street_status().3, Position::BigBlind);
}

#[test]
fn min_raise_after_bet_and_raise() {
    let mut street = Street::new(StreetName::River, 10, 1000, 1000);
    street.submit_action(Action::Bet(40)).unwrap();
    assert_eq!(street.get_street_status().2, 80);
    // prior stake 40, raise to 100: next minimum is 100 + 60
    street.submit_action(Action::Raise(100)).unwrap();
    assert_eq!(street.get_street_status().2, 160);
    assert!(street.get_available_actions().contains(&ActionOption::Raise(160, 1000)));
}

#[test]
fn rejected_action_changes_nothing() {
    let mut street = Street::new(StreetName::Flop, 10, 1000, 2000);
    street.submit_action(Action::Bet(50)).unwrap();
    let before = street.clone();
    // below the minimum raise, a call of the wrong amount, a check facing a bet
    assert!(street.submit_action(Action::Raise(60)).is_err());
    assert!(street.submit_action(Action::Call(40)).is_err());
    assert!(street.submit_action(Action::Check).is_err());
    assert!(street.submit_action(Action::Bet(50)).is_err());
    assert!(street.submit_action(Action::PostBlind(5)).is_err());
    assert_eq!(street.submit_action(Action::Raise(1001)).unwrap_err(), "Invalid action");
    assert_eq!(street.actions, before.actions);
    assert_eq!(street.btn_stack, before.btn_stack);
    assert_eq!(street.bb_stack, before.bb_stack);
}

#[test]
fn blinds_must_be_exact() {
    let mut street = Street::new(StreetName::Preflop, 10, 1000, 1000);
    assert!(street.submit_action(Action::PostBlind(7)).is_err());
    assert!(street.submit_action(Action::Fold).is_err());
    assert!(street.submit_action(Action::PostBlind(5)).is_ok());
    assert!(street.submit_action(Action::PostBlind(5)).is_err());
    assert!(street.submit_action(Action::PostBlind(10)).is_ok());
}

#[test]
fn only_the_blinds_open_the_preflop() {
    let mut street = Street::new(StreetName::Preflop, 10, 5, 10);
    assert_eq!(street.get_available_actions(), vec![ActionOption::PostBlind(5)]);
    street.submit_action(Action::PostBlind(5)).unwrap();
    assert_eq!(street.get_available_actions(), vec![ActionOption::PostBlind(10)]);
    street.submit_action(Action::PostBlind(10)).unwrap();
    assert_eq!(street.btn_stack, 0);
    assert_eq!(street.bb_stack, 0);
}

#[test]
fn limp_keeps_big_blind_option() {
    let mut street = Street::new(StreetName::Preflop, 10, 500, 600);
    street.submit_action(Action::PostBlind(5)).unwrap();
    street.submit_action(Action::PostBlind(10)).unwrap();
    assert_eq!(street.submit_action(Action::Call(10)).unwrap(), ActionResult::BettingOpen);
    assert_eq!(
        street.get_available_actions(),
        vec![ActionOption::Fold, ActionOption::Raise(20, 600), ActionOption::Check]
    );
}

#[test]
fn short_all_in_leaves_call_or_fold() {
    let mut street = Street::new(StreetName::Turn, 10, 50, 60);
    street.submit_action(Action::Bet(60)).unwrap();
    assert_eq!(street.bb_stack, 0);
    assert_eq!(
        street.get_available_actions(),
        vec![ActionOption::Fold, ActionOption::Call(50)]
    );
    assert_eq!(street.submit_action(Action::Call(50)).unwrap(), ActionResult::BettingClosed);
    assert_eq!(street.btn_stack, 0);
}

#[test]
fn fold_reports_the_folder() {
    let mut street = Street::new(StreetName::Flop, 10, 100, 100);
    street.submit_action(Action::Bet(20)).unwrap();
    assert_eq!(
        street.submit_action(Action::Fold).unwrap(),
        ActionResult::Fold(Position::Button)
    );
}

#[test]
fn other_player_swaps_positions() {
    assert_eq!(other_player(Position::Button), Position::BigBlind);
    assert_eq!(other_player(Position::BigBlind), Position::Button);
}
