use cuscuta::cuscuta_resources::Pot;
use cuscuta::player::{
    animate_player, attack_start_frame, attack_step, monkey_step, player_attack, player_roll, pick_up_potion, roll_start_frame, roll_step, touch_pot,
    walk_start_frame, walk_step, Attack, Crouch, Facing, ItemStatus, Lifetime, Roll, Sprint,
};

#[test]
fn swing_runs_three_frames_then_ends() {
    let mut index = attack_start_frame(Facing::Right);
    assert_eq!(index, 8);
    let (i, going) = attack_step(index, Facing::Right, true);
    assert_eq!((i, going), (9, true));
    index = i;
    let (i, going) = attack_step(index, Facing::Right, false);
    assert_eq!((i, going), (9, true));
    let (i, going) = attack_step(i, Facing::Right, true);
    assert_eq!((i, going), (10, true));
    let (i, going) = attack_step(i, Facing::Right, true);
    assert_eq!((i, going), (24, false));
}

#[test]
fn swing_frames_per_facing() {
    assert_eq!(attack_start_frame(Facing::Left), 12);
    assert_eq!(attack_start_frame(Facing::Up), 0);
    assert_eq!(attack_start_frame(Facing::Down), 4);
    assert_eq!(attack_step(14, Facing::Left, true), (28, false));
    assert_eq!(attack_step(2, Facing::Up, true), (16, false));
    assert_eq!(attack_step(6, Facing::Down, true), (20, false));
    // a swing that starts from another animation's frame jumps into its own
    assert_eq!(attack_step(25, Facing::Up, true), (2, true));
}

#[test]
fn roll_runs_three_frames_then_ends() {
    assert_eq!(roll_start_frame(Facing::Right), 44);
    assert_eq!(roll_start_frame(Facing::Left), 40);
    assert_eq!(roll_start_frame(Facing::Up), 36);
    assert_eq!(roll_start_frame(Facing::Down), 32);
    let (i, g) = roll_step(36, Facing::Up, true);
    assert_eq!((i, g), (37, true));
    let (i, g) = roll_step(i, Facing::Up, true);
    assert_eq!((i, g), (38, true));
    assert_eq!(roll_step(i, Facing::Up, true), (16, false));
    assert_eq!(roll_step(34, Facing::Down, true), (20, false));
}

#[test]
fn walking_cycles_four_frames() {
    assert_eq!(walk_start_frame(Facing::Right), 24);
    assert_eq!(walk_step(24, Some(Facing::Right), true), 25);
    assert_eq!(walk_step(27, Some(Facing::Right), true), 24);
    assert_eq!(walk_step(3, Some(Facing::Left), true), 28);
    assert_eq!(walk_step(17, Some(Facing::Up), false), 17);
    assert_eq!(walk_step(17, None, true), 17);
    assert_eq!(walk_step(21, Some(Facing::Down), true), 22);
}

#[test]
fn monkey_alternates_two_frames() {
    assert_eq!(monkey_step(0, true), 1);
    assert_eq!(monkey_step(1, true), 0);
    assert_eq!(monkey_step(1, false), 1);
}

#[test]
fn potions_are_picked_up_once() {
    let mut status = ItemStatus::new();
    assert!(!pick_up_potion(&mut status, false));
    assert!(!status.has_potion);
    assert!(pick_up_potion(&mut status, true));
    assert!(status.has_potion);
    assert!(!pick_up_potion(&mut status, true));
    assert!(!status.has_monkey);
}

#[test]
fn pots_are_touched_once() {
    let mut pot = Pot { touch: 0 };
    assert_eq!(touch_pot(&mut pot, 0, false, true), 0);
    assert_eq!(pot.touch, 0);
    assert_eq!(touch_pot(&mut pot, 0, true, true), 1);
    assert_eq!(pot.touch, 1);
    assert_eq!(touch_pot(&mut pot, 1, true, true), 1);
    assert_eq!(pot.touch, 1);
}

#[test]
fn movement_flags() {
    let mut c = Crouch::new();
    assert!(!c.crouching);
    c.set(true);
    assert!(c.crouching);
    assert!(Crouch::new_set(true).crouching);
    let mut r = Roll::new();
    r.set(true);
    assert!(r.rolling && !Roll::new_set(false).rolling);
    let mut s = Sprint::new();
    s.set(true);
    assert!(s.sprinting && Sprint::new_set(true).sprinting);
    let mut a = Attack::new();
    assert!(!a.attacking);
    a.set(true);
    assert!(a.attacking && Attack::new_set(true).attacking);
    assert_eq!(Lifetime::new().life, 0);
}

#[test]
fn pressing_attack_runs_a_whole_swing() {
    let mut attack = Attack::new();
    let mut index = player_attack(&mut attack, 26, Some(Facing::Down), true, false);
    assert_eq!(index, 4);
    assert!(attack.attacking);
    index = player_attack(&mut attack, index, Some(Facing::Down), false, true);
    assert_eq!(index, 5);
    index = player_attack(&mut attack, index, Some(Facing::Down), false, true);
    assert_eq!(index, 6);
    index = player_attack(&mut attack, index, Some(Facing::Down), false, true);
    assert_eq!(index, 20);
    assert!(!attack.attacking);
    assert_eq!(player_attack(&mut attack, index, Some(Facing::Down), false, true), 20);
    assert_eq!(player_attack(&mut attack, 7, None, true, true), 7);
    assert!(attack.attacking);
}

#[test]
fn rolling_waits_for_the_swing() {
    let mut roll = Roll::new();
    assert_eq!(player_roll(&mut roll, 9, Some(Facing::Left), true, true, true), 9);
    assert!(!roll.rolling);
    let index = player_roll(&mut roll, 9, Some(Facing::Left), false, true, true);
    assert_eq!(index, 41);
    assert!(roll.rolling);
    let index = player_roll(&mut roll, index, Some(Facing::Left), false, false, true);
    assert_eq!(index, 42);
    let index = player_roll(&mut roll, index, Some(Facing::Left), false, false, true);
    assert_eq!(index, 28);
    assert!(!roll.rolling);
}

#[test]
fn walking_pauses_during_moves() {
    assert_eq!(animate_player(25, Some(Facing::Right), true, false, true), 25);
    assert_eq!(animate_player(25, Some(Facing::Right), false, true, true), 25);
    assert_eq!(animate_player(25, Some(Facing::Right), false, false, true), 26);
    assert_eq!(animate_player(25, None, false, false, true), 25);
}

#[test]
fn frames_that_do_not_advance_may_be_any_index() {
    let mut attack = Attack::new();
    assert_eq!(player_attack(&mut attack, usize::MAX, Some(Facing::Up), false, true), usize::MAX);
    assert_eq!(player_attack(&mut attack, usize::MAX, Some(Facing::Up), true, true), 1);
    let mut roll = Roll::new();
    assert_eq!(player_roll(&mut roll, usize::MAX, Some(Facing::Up), false, false, true), usize::MAX);
    assert_eq!(animate_player(usize::MAX, None, false, false, true), usize::MAX);
    let mut pot = Pot { touch: 1 };
    assert_eq!(touch_pot(&mut pot, usize::MAX, true, true), usize::MAX);
}
