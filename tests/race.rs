use banana_race::action::{Action, Request, ACCELERATION, BANANA, SHELL};
use banana_race::car::{Car, STARTING_BALANCE};
use banana_race::game::{Game, RaceError, Runner, State};
use banana_race::log::Log;

fn flat_price(_kind: usize, _turn: usize, _sold: u128) -> u128 {
    10
}

fn rising_price(_kind: usize, _turn: usize, sold: u128) -> u128 {
    10 + sold
}

fn car(name: &str, y: u32, speed: u32) -> Car {
    let mut c = Car::new(String::new(), name.to_string());
    c.y = y;
    c.speed = speed;
    c
}

fn started(cars: Vec<Car>) -> Game {
    let mut game = Game::new();
    for c in cars {
        game.register(c).unwrap();
    }
    game
}

struct Accelerate;

impl Runner for Accelerate {
    fn run(&mut self, _game: &Game) -> Result<Vec<Request>, String> {
        Ok(vec![Request::Acceleration(1)])
    }
}

struct Fail;

impl Runner for Fail {
    fn run(&mut self, _game: &Game) -> Result<Vec<Request>, String> {
        Err("script failed".to_string())
    }
}

struct Idle;

impl Runner for Idle {
    fn run(&mut self, _game: &Game) -> Result<Vec<Request>, String> {
        Ok(Vec::new())
    }
}

struct Shopper;

impl Runner for Shopper {
    fn run(&mut self, _game: &Game) -> Result<Vec<Request>, String> {
        Ok(vec![Request::Acceleration(2), Request::Banana, Request::Banana, Request::Shell(1)])
    }
}

#[test]
fn buy_actions() {
    let mut game = started(vec![car("a", 0, 0), car("b", 0, 0), car("c", 0, 0)]);
    assert_eq!(game.state(), State::Active);
    assert_eq!(game.get_index(), 1);
    assert!(game.buy_acceleration(2, &flat_price));
    assert!(game.buy_banana(&flat_price));
    assert!(!game.buy_banana(&flat_price));
    assert!(game.buy_shell(1, &flat_price));
    let buyer = &game.cars()[1];
    assert_eq!(buyer.balance, STARTING_BALANCE - 40);
    assert_eq!(buyer.speed, 2);
    assert_eq!(game.actions_sold(), &vec![2u128, 1, 1]);
    assert_eq!(game.actions(), &vec![Action::Acceleration(2), Action::Banana(1), Action::Shell(1)]);
    // the banana under the buyer is not in front of it: the shell stops car 0
    assert_eq!(game.bananas(), &vec![0u32]);
    assert_eq!(game.cars()[0].speed, 0);
}

#[test]
fn accelerate_every_turn_finishes_in_a_fixed_number_of_turns() {
    let mut game = started(vec![car("a", 0, 0), car("b", 0, 0), car("c", 0, 0)]);
    assert_eq!(game.race(&mut Accelerate, &flat_price), Ok(()));
    assert_eq!(game.state(), State::Done);
    assert_eq!(game.turns(), 77);
    assert_eq!(game.winner(), Some(1));
    assert_eq!(game.logs().len(), 77);
    let cars = game.cars();
    assert_eq!(cars[1].balance, 17240);
    assert_eq!(cars[1].y, 1001);
    assert_eq!(cars[1].speed, 26);
    assert_eq!(cars[0].balance, 17250);
    assert_eq!(cars[0].y, 950);
    assert_eq!(cars[2].balance, 17250);
    assert_eq!(cars[2].y, 975);
}

#[test]
fn banana_stops_the_car_that_crosses_it() {
    // car 1 moves first in turn one: it stands at 100 and drops a banana
    let mut game = started(vec![car("b", 90, 20), car("a", 100, 0), car("c", 0, 0)]);
    assert!(game.buy_banana(&flat_price));
    assert_eq!(game.bananas(), &vec![100u32]);
    assert_eq!(game.finish_turn(&flat_price), Ok(()));
    let b = &game.cars()[0];
    assert_eq!(b.y, 100);
    assert_eq!(b.speed, 0);
    assert!(game.bananas().is_empty());
    assert_eq!(game.cars()[1].balance, STARTING_BALANCE - 10);
}

#[test]
fn shell_is_caught_by_a_banana_in_front() {
    let mut game = started(vec![car("b", 80, 5), car("dropper", 70, 100), car("a", 50, 0)]);
    // turn one: the car at 70 drops a banana and drives on to 170; car 0
    // moves from 80 to 85
    assert!(game.buy_banana(&flat_price));
    assert_eq!(game.finish_turn(&flat_price), Ok(()));
    assert_eq!(game.bananas(), &vec![70u32]);
    // turn two: the car at 50 fires one shell
    assert_eq!(game.get_index(), 2);
    assert!(game.buy_shell(1, &flat_price));
    assert!(game.bananas().is_empty());
    assert_eq!(game.cars()[0].speed, 5);
    assert_eq!(game.cars()[2].balance, STARTING_BALANCE - 10);
}

#[test]
fn shell_takes_the_speed_of_the_nearest_car_ahead() {
    let mut game = started(vec![car("far", 300, 7), car("near", 200, 9), car("me", 100, 3)]);
    assert_eq!(game.finish_turn(&flat_price), Ok(()));
    assert_eq!(game.get_index(), 2);
    assert!(game.buy_shell(1, &flat_price));
    assert_eq!(game.cars()[1].speed, 0);
    assert_eq!(game.cars()[0].speed, 7);
    assert_eq!(game.cars()[2].speed, 3);
}

#[test]
fn shell_with_no_car_ahead_is_still_charged() {
    let mut game = started(vec![car("x", 0, 4), car("leader", 500, 2), car("y", 10, 6)]);
    assert!(game.buy_shell(3, &flat_price));
    assert_eq!(game.cars()[1].balance, STARTING_BALANCE - 30);
    assert_eq!(game.cars()[0].speed, 4);
    assert_eq!(game.cars()[2].speed, 6);
    assert_eq!(game.actions_sold()[SHELL], 3);
}

#[test]
fn each_shell_takes_at_most_one_banana() {
    let mut game = started(vec![car("a", 20, 0), car("b", 30, 0), car("c", 40, 0)]);
    assert!(game.buy_banana(&flat_price)); // 30
    assert_eq!(game.finish_turn(&flat_price), Ok(()));
    assert!(game.buy_banana(&flat_price)); // 40
    assert_eq!(game.finish_turn(&flat_price), Ok(()));
    assert!(game.buy_banana(&flat_price)); // 20
    assert_eq!(game.bananas(), &vec![20u32, 30, 40]);
    assert_eq!(game.finish_turn(&flat_price), Ok(()));
    // turn four: car 1 at 30 fires; the nearest car ahead is car 2 at 40
    assert_eq!(game.get_index(), 1);
    assert!(game.buy_shell(1, &flat_price));
    assert_eq!(game.bananas(), &vec![20u32, 30]);
    assert!(game.buy_shell(1, &flat_price));
    assert_eq!(game.bananas(), &vec![20u32, 30]);
    assert_eq!(game.cars()[2].speed, 0);
}

#[test]
fn bananas_stay_sorted_and_unique() {
    let mut game = started(vec![car("a", 5, 0), car("b", 9, 0), car("c", 1, 0)]);
    for _ in 0..6 {
        game.buy_banana(&flat_price);
        assert!(!game.buy_banana(&flat_price));
        assert_eq!(game.finish_turn(&flat_price), Ok(()));
    }
    assert_eq!(game.bananas(), &vec![1u32, 5, 9]);
}

#[test]
fn movement_stops_at_the_first_of_two_bananas() {
    let mut game = started(vec![car("runner", 0, 0), car("a", 10, 0), car("b", 20, 0)]);
    assert!(game.buy_banana(&flat_price)); // car 1 at 10
    assert_eq!(game.finish_turn(&flat_price), Ok(()));
    assert!(game.buy_banana(&flat_price)); // car 2 at 20
    assert_eq!(game.finish_turn(&flat_price), Ok(()));
    assert!(game.buy_acceleration(50, &flat_price)); // car 0
    assert_eq!(game.bananas(), &vec![10u32, 20]);
    assert_eq!(game.finish_turn(&flat_price), Ok(()));
    // car 0 would have reached 50: it stopped on the first banana
    assert_eq!(game.cars()[0].y, 10);
    assert_eq!(game.cars()[0].speed, 0);
    assert_eq!(game.bananas(), &vec![20u32]);
}

#[test]
fn multi_unit_cost_sums_successive_prices() {
    let game = started(vec![car("a", 0, 0), car("b", 0, 0), car("c", 0, 0)]);
    assert_eq!(game.get_accelerate_cost(3, &rising_price), Some(10 + 11 + 12));
    assert_eq!(game.get_shell_cost(2, &rising_price), Some(21));
    assert_eq!(game.get_banana_cost(&rising_price), 10);
    assert_eq!(game.get_accelerate_cost(0, &rising_price), Some(0));
}

#[test]
fn purchase_charges_exactly_and_rejects_what_it_cannot_pay() {
    let mut game = started(vec![car("a", 0, 0), car("b", 0, 0), car("c", 0, 0)]);
    assert!(game.buy_acceleration(3, &rising_price));
    assert_eq!(game.cars()[1].balance, STARTING_BALANCE - 33);
    let before = game.cars()[1].balance;
    let huge = |_k: usize, _t: usize, _s: u128| -> u128 { 1_000_000 };
    assert!(!game.buy_acceleration(1, &huge));
    assert!(!game.buy_banana(&huge));
    assert!(!game.buy_shell(1, &huge));
    assert_eq!(game.cars()[1].balance, before);
    assert_eq!(game.cars()[1].speed, 3);
    assert_eq!(game.actions_sold()[ACCELERATION], 3);
    assert_eq!(game.actions_sold()[BANANA], 0);
}

#[test]
fn overflowing_cost_is_refused() {
    let mut game = started(vec![car("a", 0, 0), car("b", 0, 0), car("c", 0, 0)]);
    let max = |_k: usize, _t: usize, _s: u128| -> u128 { u128::MAX };
    assert_eq!(game.get_accelerate_cost(1, &max), Some(u128::MAX));
    assert_eq!(game.get_accelerate_cost(2, &max), None);
    assert!(!game.buy_shell(2, &max));
}

#[test]
fn registration_closes_when_the_race_starts() {
    let mut game = started(vec![car("a", 0, 0), car("b", 0, 0), car("c", 0, 0)]);
    assert_eq!(game.register(car("d", 0, 0)), Err(RaceError::RegistrationClosed));
    assert_eq!(game.cars().len(), 3);
}

#[test]
fn race_needs_all_its_cars() {
    let mut game = Game::new();
    game.register(car("a", 0, 0)).unwrap();
    assert_eq!(game.state(), State::Waiting);
    assert_eq!(game.race(&mut Idle, &flat_price), Err(RaceError::NotReady));
    assert_eq!(game.finish_turn(&flat_price), Err(RaceError::NotReady));
    assert!(!game.buy_acceleration(1, &flat_price));
    assert!(game.logs().is_empty());
}

#[test]
fn finished_race_cannot_run_again() {
    let mut game = started(vec![car("a", 0, 0), car("b", 990, 20), car("c", 0, 0)]);
    assert_eq!(game.race(&mut Idle, &flat_price), Ok(()));
    assert_eq!(game.winner(), Some(1));
    assert_eq!(game.turns(), 2);
    assert_eq!(game.race(&mut Idle, &flat_price), Err(RaceError::NotReady));
    assert!(!game.buy_banana(&flat_price));
}

#[test]
fn failed_script_buys_nothing() {
    let mut game = started(vec![car("a", 0, 0), car("b", 0, 0), car("c", 0, 0)]);
    assert_eq!(game.play_turn(&mut Fail, &flat_price), Ok(()));
    assert_eq!(game.cars()[1].balance, STARTING_BALANCE);
    assert_eq!(game.cars()[1].speed, 0);
    assert_eq!(game.actions_sold(), &vec![0u128, 0, 0]);
    assert_eq!(game.turns(), 2);
    assert!(game.logs()[0].actions.is_empty());
}

#[test]
fn log_entry_records_the_turn() {
    let mut game = started(vec![car("a", 0, 0), car("b", 0, 0), car("c", 0, 0)]);
    assert_eq!(game.play_turn(&mut Accelerate, &rising_price), Ok(()));
    let log = &game.logs()[0];
    assert_eq!(log.actions, vec![Action::Acceleration(1)]);
    assert_eq!(log.current_car, 1);
    assert_eq!(log.actions_sold, vec![1u128, 0, 0]);
    assert_eq!(log.costs, vec![11u128, 10, 10]);
    assert_eq!(log.cars[1].y, 1);
    assert!(game.actions().is_empty());
}

#[test]
fn action_kinds_index_the_counters() {
    assert_eq!(Action::Acceleration(5).into_usize(), ACCELERATION);
    assert_eq!(Action::Banana(2).into_usize(), BANANA);
    assert_eq!(Action::Shell(1).into_usize(), SHELL);
}

#[test]
fn new_car_stands_at_the_start() {
    let c = Car::new("script".to_string(), "Alice".to_string());
    assert_eq!(c.balance, 17500);
    assert_eq!(c.speed, 0);
    assert_eq!(c.y, 0);
    assert_eq!(c.lua_script, "script");
    assert_eq!(c.name, "Alice");
}

#[test]
fn add_info_keeps_the_actions() {
    let mut log = Log::default();
    log.actions.push(Action::Banana(0));
    log.add_info(vec![3], vec![1, 2, 3], 2, vec![car("a", 1, 1)], vec![4, 5, 6]);
    assert_eq!(log.actions, vec![Action::Banana(0)]);
    assert_eq!(log.bananas, vec![3u32]);
    assert_eq!(log.costs, vec![1u128, 2, 3]);
    assert_eq!(log.current_car, 2);
    assert_eq!(log.cars.len(), 1);
    assert_eq!(log.actions_sold, vec![4u128, 5, 6]);
}

#[test]
fn first_car_past_the_finish_wins_and_every_car_moves() {
    let mut game = started(vec![car("a", 995, 10), car("b", 999, 10), car("c", 0, 3)]);
    assert_eq!(game.finish_turn(&flat_price), Ok(()));
    assert_eq!(game.state(), State::Done);
    assert_eq!(game.winner(), Some(0));
    assert_eq!(game.cars()[1].y, 1009);
    assert_eq!(game.cars()[2].y, 3);
    assert_eq!(game.finish_turn(&flat_price), Err(RaceError::NotReady));
}

#[test]
fn a_turn_takes_the_requests_in_order() {
    let mut game = started(vec![car("a", 0, 0), car("b", 50, 0), car("c", 10, 0)]);
    assert_eq!(game.play_turn(&mut Shopper, &flat_price), Ok(()));
    // speed 2, one banana at 50 (the second one is refused), one shell that
    // the banana under the buyer does not catch and no car ahead: 40 spent
    let b = &game.cars()[1];
    assert_eq!(b.balance, STARTING_BALANCE - 40);
    assert_eq!(b.y, 52);
    assert_eq!(game.cars()[0].balance, STARTING_BALANCE);
    assert_eq!(game.cars()[2].balance, STARTING_BALANCE);
    assert_eq!(game.actions_sold(), &vec![2u128, 1, 1]);
    assert_eq!(game.bananas(), &vec![50u32]);
    assert_eq!(game.logs()[0].actions, vec![Action::Acceleration(2), Action::Banana(1), Action::Shell(1)]);
}

#[test]
fn settling_a_failed_turn_only_moves_the_cars() {
    let mut game = started(vec![car("a", 0, 4), car("b", 0, 0), car("c", 0, 0)]);
    assert_eq!(game.settle_turn(Err("no takeYourTurn".to_string()), &flat_price), Ok(()));
    assert_eq!(game.cars()[0].y, 4);
    assert_eq!(game.cars()[1].balance, STARTING_BALANCE);
    assert_eq!(game.turns(), 2);
    assert_eq!(game.logs().len(), 1);
}

#[test]
fn apply_request_reports_refusals() {
    let mut game = started(vec![car("a", 0, 0), car("b", 7, 0), car("c", 0, 0)]);
    assert!(game.apply_request(Request::Banana, &flat_price));
    assert!(!game.apply_request(Request::Banana, &flat_price));
    assert_eq!(game.bananas(), &vec![7u32]);
}

#[test]
fn copy_holds_the_same_race() {
    let mut game = started(vec![car("a", 0, 0), car("b", 7, 0), car("c", 0, 0)]);
    assert_eq!(game.race(&mut Accelerate, &flat_price), Ok(()));
    let copy = game.copy();
    assert_eq!(copy.turns(), game.turns());
    assert_eq!(copy.logs().len(), game.logs().len());
    assert_eq!(copy.winner(), game.winner());
    assert_eq!(copy.cars()[1].balance, game.cars()[1].balance);
}
