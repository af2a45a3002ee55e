use vstd::prelude::*;

use crate::cuscuta_resources::Pot;

verus! {

/// Frames a cymbal monkey has lived.
#[derive(Debug, Clone, Copy, PartialEq, Eq, Structural)]
pub struct Lifetime {
    pub life: u32,
}

impl Lifetime {
    /// Just spawned.
    pub fn new() -> (l: Lifetime)
        ensures
            l.life == 0,
    {
        Lifetime { life: 0 }
    }
}

/// Whether the player crouches.
#[derive(Debug, Clone, Copy, PartialEq, Eq, Structural)]
pub struct Crouch {
    pub crouching: bool,
}

impl Crouch {
    /// Not crouching.
    pub fn new() -> (c: Crouch)
        ensures
            !c.crouching,
    {
        Crouch { crouching: false }
    }

    /// Crouching as `b` says.
    pub fn new_set(b: bool) -> (c: Crouch)
        ensures
            c.crouching == b,
    {
        Crouch { crouching: b }
    }

    /// Sets whether the player crouches.
    pub fn set(&mut self, crouch: bool)
        ensures
            final(self).crouching == crouch,
    {
        self.crouching = crouch;
    }
}

/// Whether the player rolls.
#[derive(Debug, Clone, Copy, PartialEq, Eq, Structural)]
pub struct Roll {
    pub rolling: bool,
}

impl Roll {
    /// Not rolling.
    pub fn new() -> (r: Roll)
        ensures
            !r.rolling,
    {
        Roll { rolling: false }
    }

    /// Rolling as `b` says.
    pub fn new_set(b: bool) -> (r: Roll)
        ensures
            r.rolling == b,
    {
        Roll { rolling: b }
    }

    /// Sets whether the player rolls.
    pub fn set(&mut self, roll: bool)
        ensures
            final(self).rolling == roll,
    {
        self.rolling = roll;
    }
}

/// Whether the player sprints.
#[derive(Debug, Clone, Copy, PartialEq, Eq, Structural)]
pub struct Sprint {
    pub sprinting: bool,
}

impl Sprint {
    /// Not sprinting.
    pub fn new() -> (s: Sprint)
        ensures
            !s.sprinting,
    {
        Sprint { sprinting: false }
    }

    /// Sprinting as `b` says.
    pub fn new_set(b: bool) -> (s: Sprint)
        ensures
            s.sprinting == b,
    {
        Sprint { sprinting: b }
    }

    /// Sets whether the player sprints.
    pub fn set(&mut self, sprint: bool)
        ensures
            final(self).sprinting == sprint,
    {
        self.sprinting = sprint;
    }
}

/// Whether the player is in the middle of a swing.
#[derive(Debug, Clone, Copy, PartialEq, Eq, Structural)]
pub struct Attack {
    pub attacking: bool,
}

impl Attack {
    /// Not attacking.
    pub fn new() -> (a: Attack)
        ensures
            !a.attacking,
    {
        Attack { attacking: false }
    }

    /// Attacking as `b` says.
    pub fn new_set(b: bool) -> (a: Attack)
        ensures
            a.attacking == b,
    {
        Attack { attacking: b }
    }

    /// Sets whether the player attacks.
    pub fn set(&mut self, att: bool)
        ensures
            final(self).attacking == att,
    {
        self.attacking = att;
    }
}

/// The items a player carries.
#[derive(Debug, Clone, Copy, PartialEq, Eq, Structural)]
pub struct ItemStatus {
    pub has_potion: bool,
    pub has_monkey: bool,
}

impl ItemStatus {
    /// Carrying nothing.
    pub fn new() -> (s: ItemStatus)
        ensures
            !s.has_potion,
            !s.has_monkey,
    {
        ItemStatus { has_monkey: false, has_potion: false }
    }
}

/// The way the player's sprite faces.
#[derive(Debug, Clone, Copy, PartialEq, Eq, Structural)]
pub enum Facing {
    Right,
    Left,
    Up,
    Down,
}

/// First frame of the four-frame swing animation facing `f`.
pub open spec fn attack_base(f: Facing) -> int {
    match f {
        Facing::Right => 8,
        Facing::Left => 12,
        Facing::Up => 0,
        Facing::Down => 4,
    }
}

/// First frame of the four-frame roll animation facing `f`.
pub open spec fn roll_base(f: Facing) -> int {
    match f {
        Facing::Right => 44,
        Facing::Left => 40,
        Facing::Up => 36,
        Facing::Down => 32,
    }
}

/// First frame of the four-frame walk animation facing `f`, which also
/// follows a finished swing or roll.
pub open spec fn walk_base(f: Facing) -> int {
    match f {
        Facing::Right => 24,
        Facing::Left => 28,
        Facing::Up => 16,
        Facing::Down => 20,
    }
}

/// The frame after `index` in the four-frame animation starting at `base`
/// when the animation timer has finished a period; else `index`.
pub open spec fn cycle_frame(index: int, base: int, finished: bool) -> int {
    if finished {
        (index + 1) % 4 + base
    } else {
        index
    }
}

/// One tick of a swing or roll at frame `index` of the animation starting at
/// `base`: the frame moves on when the timer finished, and once it is the
/// animation's last frame the move ends and the frame becomes `after`. The
/// result is the new frame and whether the move goes on.
pub open spec fn move_tick(index: int, base: int, after: int, finished: bool) -> (int, bool) {
    let next = cycle_frame(index, base, finished);
    if next == base + 3 {
        (after, false)
    } else {
        (next, true)
    }
}

/// One tick of a swing facing `f` at frame `index`.
pub open spec fn attack_tick(index: int, f: Facing, finished: bool) -> (int, bool) {
    move_tick(index, attack_base(f), walk_base(f), finished)
}

/// One tick of a roll facing `f` at frame `index`.
pub open spec fn roll_tick(index: int, f: Facing, finished: bool) -> (int, bool) {
    move_tick(index, roll_base(f), walk_base(f), finished)
}

/// One tick of a swing or roll, as `move_tick` gives it.
fn step_move(index: usize, base: usize, after: usize, finished: bool) -> (r: (usize, bool))
    requires
        finished ==> index < usize::MAX,
        base + 3 <= usize::MAX,
    ensures
        r.0 == move_tick(index as int, base as int, after as int, finished).0,
        r.1 == move_tick(index as int, base as int, after as int, finished).1,
{
    let next = if finished {
        ((index + 1) % 4) + base
    } else {
        index
    };
    if next == base + 3 {
        (after, false)
    } else {
        (next, true)
    }
}

/// The frame a swing facing `f` starts from.
pub fn attack_start_frame(f: Facing) -> (i: usize)
    ensures
        i == attack_base(f),
{
    match f {
        Facing::Right => 8,
        Facing::Left => 12,
        Facing::Up => 0,
        Facing::Down => 4,
    }
}

/// The frame a roll facing `f` starts from.
pub fn roll_start_frame(f: Facing) -> (i: usize)
    ensures
        i == roll_base(f),
{
    match f {
        Facing::Right => 44,
        Facing::Left => 40,
        Facing::Up => 36,
        Facing::Down => 32,
    }
}

/// The frame a walk or a finished move facing `f` shows.
pub fn walk_start_frame(f: Facing) -> (i: usize)
    ensures
        i == walk_base(f),
{
    match f {
        Facing::Right => 24,
        Facing::Left => 28,
        Facing::Up => 16,
        Facing::Down => 20,
    }
}

/// One tick of a swing facing `f` at frame `index`: the new frame, and
/// whether the swing goes on.
pub fn attack_step(index: usize, f: Facing, finished: bool) -> (r: (usize, bool))
    requires
        finished ==> index < usize::MAX,
    ensures
        r.0 == attack_tick(index as int, f, finished).0,
        r.1 == attack_tick(index as int, f, finished).1,
{
    step_move(index, attack_start_frame(f), walk_start_frame(f), finished)
}

/// One tick of a roll facing `f` at frame `index`: the new frame, and
/// whether the roll goes on.
pub fn roll_step(index: usize, f: Facing, finished: bool) -> (r: (usize, bool))
    requires
        finished ==> index < usize::MAX,
    ensures
        r.0 == roll_tick(index as int, f, finished).0,
        r.1 == roll_tick(index as int, f, finished).1,
{
    step_move(index, roll_start_frame(f), walk_start_frame(f), finished)
}

/// One tick of the walk animation at frame `index`, facing `f` when the
/// player moves along its main axis (`None` when it stands still on it).
pub fn walk_step(index: usize, f: Option<Facing>, finished: bool) -> (i: usize)
    requires
        finished && f is Some ==> index < usize::MAX,
    ensures
        i == (match f {
            Some(f) => cycle_frame(index as int, walk_base(f), finished),
            None => index as int,
        }),
{
    match f {
        Some(f) => {
            if finished {
                ((index + 1) % 4) + walk_start_frame(f)
            } else {
                index
            }
        },
        None => index,
    }
}

/// One tick of the two-frame cymbal monkey animation at frame `index`.
pub fn monkey_step(index: usize, finished: bool) -> (i: usize)
    requires
        finished ==> index < usize::MAX,
    ensures
        i == (if finished {
            (index + 1) % 2
        } else {
            index as int
        }),
{
    if finished {
        (index + 1) % 2
    } else {
        index
    }
}

/// The frame a move starts from when its key was pressed (facing `f`, or
/// staying at `index` when the velocity gives no facing).
pub open spec fn start_frame(index: int, facing: Option<Facing>, base: spec_fn(Facing) -> int) -> int {
    match facing {
        Some(f) => base(f),
        None => index,
    }
}

/// One frame of the player's swing. A press of the attack button starts a
/// swing from the first swing frame of the facing; while the player swings,
/// the frame moves on when the animation timer finished a period, and the
/// swing ends on its last frame, showing the walk frame of that facing.
/// With no facing the frame stays. Returns the new frame.
pub fn player_attack(attack: &mut Attack, index: usize, facing: Option<Facing>, just_pressed: bool, finished: bool) -> (i: usize)
    requires
        !just_pressed && old(attack).attacking && facing is Some && finished ==> index < usize::MAX,
    ensures
        ({
            let swinging = just_pressed || old(attack).attacking;
            let from = if just_pressed {
                start_frame(index as int, facing, |f: Facing| attack_base(f))
            } else {
                index as int
            };
            if !swinging {
                !final(attack).attacking && i == index
            } else {
                match facing {
                    Some(f) => i == attack_tick(from, f, finished).0 && final(attack).attacking == attack_tick(
                        from,
                        f,
                        finished,
                    ).1,
                    None => final(attack).attacking && i == from,
                }
            }
        }),
{
    let mut index = index;
    if just_pressed {
        attack.attacking = true;
        if let Some(f) = facing {
            index = attack_start_frame(f);
        }
    }
    if attack.attacking {
        if let Some(f) = facing {
            let (next, going) = attack_step(index, f, finished);
            attack.attacking = going;
            index = next;
        }
    }
    index
}

/// One frame of the player's roll. Nothing happens while the player swings.
/// Holding the roll key starts a roll from the first roll frame of the
/// facing; while the player rolls, the frame moves on when the animation
/// timer finished a period, and the roll ends on its last frame, showing the
/// walk frame of that facing. With no facing the frame stays. Returns the
/// new frame.
pub fn player_roll(roll: &mut Roll, index: usize, facing: Option<Facing>, attacking: bool, pressed: bool, finished: bool) -> (i: usize)
    requires
        !attacking && !pressed && old(roll).rolling && facing is Some && finished ==> index < usize::MAX,
    ensures
        ({
            let rolling = pressed || old(roll).rolling;
            let from = if pressed {
                start_frame(index as int, facing, |f: Facing| roll_base(f))
            } else {
                index as int
            };
            if attacking {
                final(roll).rolling == old(roll).rolling && i == index
            } else if !rolling {
                !final(roll).rolling && i == index
            } else {
                match facing {
                    Some(f) => i == roll_tick(from, f, finished).0 && final(roll).rolling == roll_tick(
                        from,
                        f,
                        finished,
                    ).1,
                    None => final(roll).rolling && i == from,
                }
            }
        }),
{
    if attacking {
        return index;
    }
    let mut index = index;
    if pressed {
        roll.rolling = true;
        if let Some(f) = facing {
            index = roll_start_frame(f);
        }
    }
    if roll.rolling {
        if let Some(f) = facing {
            let (next, going) = roll_step(index, f, finished);
            roll.rolling = going;
            index = next;
        }
    }
    index
}

/// One frame of the player's walk animation: nothing while the player
/// swings or rolls; else the walk step facing the way it moves.
pub fn animate_player(index: usize, facing: Option<Facing>, attacking: bool, rolling: bool, finished: bool) -> (i: usize)
    requires
        !(attacking || rolling) && facing is Some && finished ==> index < usize::MAX,
    ensures
        attacking || rolling ==> i == index,
        !(attacking || rolling) ==> i == (match facing {
            Some(f) => cycle_frame(index as int, walk_base(f), finished),
            None => index as int,
        }),
{
    if attacking || rolling {
        return index;
    }
    walk_step(index, facing, finished)
}

/// Picks up a potion the player touches when it carries none. Returns
/// whether it did, the potion then being gone.
pub fn pick_up_potion(status: &mut ItemStatus, touching: bool) -> (picked: bool)
    ensures
        picked == (touching && !old(status).has_potion),
        final(status).has_potion == (old(status).has_potion || touching),
        final(status).has_monkey == old(status).has_monkey,
{
    if touching && !status.has_potion {
        status.has_potion = true;
        true
    } else {
        false
    }
}

/// Touches a coin pot: when the interact key was just pressed, the player
/// touches the pot, and the pot was not touched before, it is touched once
/// and its sprite moves on by one frame from `atlas_index`. Returns the
/// pot's new frame.
pub fn touch_pot(pot: &mut Pot, atlas_index: usize, pressed: bool, touching: bool) -> (i: usize)
    requires
        pressed && touching && old(pot).touch == 0 ==> atlas_index < usize::MAX,
    ensures
        pressed && touching && old(pot).touch == 0 ==> final(pot).touch == 1 && i == atlas_index + 1,
        !(pressed && touching && old(pot).touch == 0) ==> final(pot).touch == old(pot).touch && i
            == atlas_index,
{
    if pressed && touching && pot.touch == 0 {
        pot.touch = pot.touch + 1;
        if pot.touch == 1 {
            return atlas_index + 1;
        }
    }
    atlas_index
}

/// The frame and move state after `n` finished ticks of a swing facing `f`
/// that stands at frame `index` and still goes on.
pub open spec fn attack_after_ticks(index: int, f: Facing, n: nat) -> (int, bool)
    decreases n,
{
    if n == 0 {
        (index, true)
    } else {
        let prev = attack_after_ticks(index, f, (n - 1) as nat);
        if prev.1 {
            attack_tick(prev.0, f, true)
        } else {
            prev
        }
    }
}

/// The frame and move state after `n` finished ticks of a roll facing `f`
/// that stands at frame `index` and still goes on.
pub open spec fn roll_after_ticks(index: int, f: Facing, n: nat) -> (int, bool)
    decreases n,
{
    if n == 0 {
        (index, true)
    } else {
        let prev = roll_after_ticks(index, f, (n - 1) as nat);
        if prev.1 {
            roll_tick(prev.0, f, true)
        } else {
            prev
        }
    }
}

/// A swing started facing `f` goes on through two finished animation
/// periods and ends on the third, showing the walk frame of that facing.
pub proof fn lemma_swing_takes_three_ticks(f: Facing)
    ensures
        attack_after_ticks(attack_base(f), f, 1).1,
        attack_after_ticks(attack_base(f), f, 2).1,
        attack_after_ticks(attack_base(f), f, 3) == (walk_base(f), false),
{
    reveal_with_fuel(attack_after_ticks, 4);
}

/// A roll started facing `f` goes on through two finished animation
/// periods and ends on the third, showing the walk frame of that facing.
pub proof fn lemma_roll_takes_three_ticks(f: Facing)
    ensures
        roll_after_ticks(roll_base(f), f, 1).1,
        roll_after_ticks(roll_base(f), f, 2).1,
        roll_after_ticks(roll_base(f), f, 3) == (walk_base(f), false),
{
    reveal_with_fuel(roll_after_ticks, 4);
}

/// Whatever frame a swing facing `f` stands at, it ends within four
/// finished animation periods.
pub proof fn lemma_swing_ends(index: int, f: Facing)
    requires
        index >= 0,
    ensures
        !attack_after_ticks(index, f, 4).1,
        attack_after_ticks(index, f, 4).0 == walk_base(f),
{
    reveal_with_fuel(attack_after_ticks, 5);
}

/// Whatever frame a roll facing `f` stands at, it ends within four finished
/// animation periods.
pub proof fn lemma_roll_ends(index: int, f: Facing)
    requires
        index >= 0,
    ensures
        !roll_after_ticks(index, f, 4).1,
        roll_after_ticks(index, f, 4).0 == walk_base(f),
{
    reveal_with_fuel(roll_after_ticks, 5);
}

/// The walk animation facing `f` stays within its four frames once in them
/// (or once the timer has finished a period).
pub proof fn lemma_walk_stays_in_frames(index: int, f: Facing, finished: bool)
    requires
        index >= 0,
        finished || (walk_base(f) <= index < walk_base(f) + 4),
    ensures
        walk_base(f) <= cycle_frame(index, walk_base(f), finished) < walk_base(f) + 4,
{
}

} // verus!
