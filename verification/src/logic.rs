//! The action model: the fixed catalog of actions, their resource costs,
//! applicability rules, state-transition effects, and the reward formula.
//! Everything here is pure computation over a single state value.

use vstd::prelude::*;

verus! {

/// A combination of timed modifiers ("buffs") carried by a state.
///
/// `inner_quiet` is a multiplier-level counter that in the reachable model
/// only ever holds the canonical starting value or zero. The four middle
/// fields are countdown timers, decremented by at most one per turn and
/// clamped at zero. `basic_touch` and `observe` are one-turn flags.
#[derive(Clone, Copy, PartialEq, Eq, Structural, Hash, Debug)]
pub struct Buff {
    pub inner_quiet: u8,
    pub manipulation: u8,
    pub innovation: u8,
    pub great_strides: u8,
    pub waste_not: u8,
    pub basic_touch: u8,
    pub observe: u8,
}

/// A resource state: remaining durability, remaining action points (CP),
/// and the active modifier combination.
#[derive(Clone, Copy, PartialEq, Eq, Structural, Hash, Debug)]
pub struct State {
    pub durability: u8,
    pub cp: u16,
    pub buff: Buff,
}

/// The configuration of one table build, immutable for its lifetime.
pub struct Setting {
    pub max_durability: u8,
    pub max_cp: u16,
    pub sustain: bool,
    pub process_accuracy: u32,
    pub required_process_accuracy: u32,
}

/// The closed catalog of actions, plus the `CannotAction` sentinel that a
/// policy table stores where no action is worth taking.
#[derive(Clone, Copy, PartialEq, Eq, Structural, Debug)]
pub enum Action {
    CannotAction,
    BasicTouch,
    StandardTouch,
    PrudentTouch,
    FocusedTouch,
    PreparatoryTouch,
    ByregotsBlessing,
    MastersMend,
    Observe,
    WasteNot,
    WasteNot2,
    GreatStrides,
    Innovation,
    Manipulation,
}

/// Subtraction on a counter, clamped at zero.
pub open spec fn spec_sub_clip(x: u8, y: u8) -> u8 {
    if x >= y { (x - y) as u8 } else { 0 }
}

fn sub_clip(x: u8, y: u8) -> (r: u8)
    ensures
        r == spec_sub_clip(x, y),
{
    if x >= y { x - y } else { 0 }
}

/// Natural one-turn decay of a modifier combination: each timer and flag
/// loses one, clamped at zero; the stack counter is untouched.
pub open spec fn spec_buff_decay(b: Buff) -> Buff {
    Buff {
        inner_quiet: b.inner_quiet,
        manipulation: spec_sub_clip(b.manipulation, 1),
        innovation: spec_sub_clip(b.innovation, 1),
        great_strides: spec_sub_clip(b.great_strides, 1),
        waste_not: spec_sub_clip(b.waste_not, 1),
        basic_touch: spec_sub_clip(b.basic_touch, 1),
        observe: spec_sub_clip(b.observe, 1),
    }
}

impl Buff {
    /// The modifier combination after one turn of natural decay.
    pub fn next_turn(&self) -> (r: Buff)
        ensures
            r == spec_buff_decay(*self),
    {
        Buff {
            inner_quiet: self.inner_quiet,
            manipulation: sub_clip(self.manipulation, 1),
            innovation: sub_clip(self.innovation, 1),
            great_strides: sub_clip(self.great_strides, 1),
            waste_not: sub_clip(self.waste_not, 1),
            basic_touch: sub_clip(self.basic_touch, 1),
            observe: sub_clip(self.observe, 1),
        }
    }
}

/// The action-point cost of an action. Fixed per action, except
/// `StandardTouch`, whose cost drops from 32 to 18 while the `basic_touch`
/// flag is active. The sentinel costs 0; every real action costs at least 7.
pub open spec fn spec_required_cp(s: State, a: Action) -> u16 {
    match a {
        Action::CannotAction => 0,
        Action::BasicTouch => 18,
        Action::StandardTouch => if s.buff.basic_touch > 0 { 18 } else { 32 },
        Action::PrudentTouch => 25,
        Action::FocusedTouch => 18,
        Action::PreparatoryTouch => 40,
        Action::ByregotsBlessing => 24,
        Action::MastersMend => 88,
        Action::Observe => 7,
        Action::WasteNot => 56,
        Action::WasteNot2 => 98,
        Action::GreatStrides => 32,
        Action::Innovation => 18,
        Action::Manipulation => 96,
    }
}

/// The nominal durability cost of an action, before the waste-not halving.
pub open spec fn spec_base_durability(a: Action) -> u8 {
    match a {
        Action::CannotAction => 0,
        Action::BasicTouch => 10,
        Action::StandardTouch => 10,
        Action::PrudentTouch => 5,
        Action::FocusedTouch => 10,
        Action::PreparatoryTouch => 20,
        Action::ByregotsBlessing => 10,
        Action::MastersMend => 0,
        Action::Observe => 0,
        Action::WasteNot => 0,
        Action::WasteNot2 => 0,
        Action::GreatStrides => 0,
        Action::Innovation => 0,
        Action::Manipulation => 0,
    }
}

/// The durability cost actually paid: the nominal cost, halved (floor) while
/// `waste_not` is active.
pub open spec fn spec_required_durability(s: State, a: Action) -> u8 {
    if s.buff.waste_not > 0 {
        spec_base_durability(a) / 2
    } else {
        spec_base_durability(a)
    }
}

/// Whether an action may be taken from a state: its action-point cost must be
/// affordable, and `ByregotsBlessing` needs `inner_quiet >= 1`,
/// `PrudentTouch` needs `waste_not == 0`, `FocusedTouch` needs the `observe`
/// flag.
pub open spec fn spec_check_action(s: State, a: Action) -> bool {
    s.cp >= spec_required_cp(s, a) && match a {
        Action::ByregotsBlessing => s.buff.inner_quiet >= 1,
        Action::PrudentTouch => s.buff.waste_not == 0,
        Action::FocusedTouch => s.buff.observe != 0,
        _ => true,
    }
}

/// Twice the reward buff rate: 2, plus 2 while `great_strides` is active,
/// plus 1 while `innovation` is active (the rate itself is 1 + 1 + 0.5).
pub open spec fn spec_buff_rate2(b: Buff) -> int {
    2 + (if b.great_strides > 0 { 2int } else { 0int }) + (if b.innovation > 0 {
        1int
    } else {
        0int
    })
}

/// Numerator of the effective accuracy `f`: `f == pa` when the stack counter
/// is zero, else `f == pa * (1 + (iq - 1)/5) == pa * (4 + iq) / 5`.
pub open spec fn spec_f_num(iq: u8, pa: u32) -> int {
    if iq == 0 { pa as int } else { pa * (4 + iq) }
}

/// Denominator of the effective accuracy `f`.
pub open spec fn spec_f_den(iq: u8) -> int {
    if iq == 0 { 1 } else { 5 }
}

/// The immediate reward of a quality action, in exact integer arithmetic.
///
/// With `f = fn/fd` the staged formula
/// `q1 = 0.35 f + 35`, `q2 = q1 (f + 10000) / (rpa + 10000)`, `q3 = 0.6 q2`,
/// `reward = floor(q3 * efficiency * buffRate)`
/// collapses, for `efficiency = eff20/20` and `buffRate = rate2/2`, into the
/// single fraction below: the 0.35 and 35 contribute `(7 fn + 700 fd)/(20 fd)`,
/// the 0.6 a factor `3/5`, and `20 fd * (f + 10000) = (fn + 10000 fd) * 20`,
/// giving denominator `20 fd * 5 * fd * 20 * 2 = 4000 fd^2` times `(rpa + 10000)`.
pub open spec fn spec_quality_reward(b: Buff, pa: u32, rpa: u32, eff20: int) -> int {
    let f_num = spec_f_num(b.inner_quiet, pa);
    let f_den = spec_f_den(b.inner_quiet);
    (3 * eff20 * spec_buff_rate2(b) * (7 * f_num + 700 * f_den) * (f_num + 10000 * f_den)) / (4000
        * f_den * f_den * (10000 + rpa))
}

/// The reward as stored in a table cell: the exact reward, clamped to `u32`.
pub open spec fn spec_reward(b: Buff, pa: u32, rpa: u32, eff20: int) -> u32 {
    if spec_quality_reward(b, pa, rpa, eff20) > u32::MAX {
        u32::MAX
    } else {
        spec_quality_reward(b, pa, rpa, eff20) as u32
    }
}

/// Twenty times the efficiency of each quality action; zero for the pure
/// resource and modifier actions. `ByregotsBlessing` uses the pre-reset stack
/// count: `efficiency = 1 + (iq - 1)/5`, so `eff20 = (4 + iq) * 4`.
pub open spec fn spec_eff20(a: Action, iq: u8) -> int {
    match a {
        Action::BasicTouch => 20,
        Action::StandardTouch => 25,
        Action::PrudentTouch => 20,
        Action::FocusedTouch => 30,
        Action::PreparatoryTouch => 40,
        Action::ByregotsBlessing => (4 + iq) * 4,
        _ => 0,
    }
}

/// A state after paying the action-point cost of `a`.
pub open spec fn spec_consume_cp(s: State, a: Action) -> State
    recommends
        s.cp >= spec_required_cp(s, a),
{
    State { cp: (s.cp - spec_required_cp(s, a)) as u16, ..s }
}

/// A state after paying the durability cost of `a`, clamped at zero.
pub open spec fn spec_consume_durability(s: State, a: Action) -> State {
    State { durability: spec_sub_clip(s.durability, spec_required_durability(s, a)), ..s }
}

/// A state with `x` durability restored, capped at the configured maximum.
pub open spec fn spec_add_durability(s: State, x: u8, max_durability: u8) -> State {
    State {
        durability: if s.durability + x > max_durability {
            max_durability
        } else {
            (s.durability + x) as u8
        },
        ..s
    }
}

/// One turn of natural decay for a whole state: every timer and flag loses
/// one, and an active `manipulation` timer restores 5 durability (capped at
/// the maximum) unless durability is already depleted.
pub open spec fn spec_next_turn(s: State, max_durability: u8) -> State {
    State {
        durability: if s.buff.manipulation == 0 || s.durability == 0 {
            s.durability
        } else if s.durability + 5 > max_durability {
            max_durability
        } else {
            (s.durability + 5) as u8
        },
        cp: s.cp,
        buff: spec_buff_decay(s.buff),
    }
}

pub open spec fn spec_set_inner_quiet(s: State, x: u8) -> State {
    State { buff: Buff { inner_quiet: x, ..s.buff }, ..s }
}

pub open spec fn spec_set_manipulation(s: State, x: u8) -> State {
    State { buff: Buff { manipulation: x, ..s.buff }, ..s }
}

pub open spec fn spec_set_waste_not(s: State, x: u8) -> State {
    State { buff: Buff { waste_not: x, ..s.buff }, ..s }
}

pub open spec fn spec_set_great_strides(s: State, x: u8) -> State {
    State { buff: Buff { great_strides: x, ..s.buff }, ..s }
}

pub open spec fn spec_set_innovation(s: State, x: u8) -> State {
    State { buff: Buff { innovation: x, ..s.buff }, ..s }
}

pub open spec fn spec_set_basic_touch(s: State) -> State {
    State { buff: Buff { basic_touch: 1, ..s.buff }, ..s }
}

pub open spec fn spec_set_observe(s: State) -> State {
    State { buff: Buff { observe: 1, ..s.buff }, ..s }
}

/// The transition effect and immediate reward of an action, in fixed order:
/// pay the costs, apply one turn of natural decay — an incoming active
/// `manipulation` timer regenerates durability here, also on the very turn
/// `Manipulation` or `MastersMend` is taken — then apply the action's own
/// side effect (set a timer or flag to its activation length, restore
/// durability capped at the maximum, reset the stack counter). Every quality
/// action clears `great_strides` as a side effect of being performed; its
/// reward is computed from the pre-transition modifiers.
pub open spec fn spec_run_action(s: State, setting: Setting, a: Action) -> (State, u32)
    recommends
        a != Action::CannotAction,
        s.cp >= spec_required_cp(s, a),
{
    let md = setting.max_durability;
    let pa = setting.process_accuracy;
    let rpa = setting.required_process_accuracy;
    match a {
        Action::CannotAction => (s, 0),
        Action::BasicTouch => (
            spec_set_great_strides(
                spec_set_basic_touch(
                    spec_next_turn(spec_consume_durability(spec_consume_cp(s, a), a), md),
                ),
                0,
            ),
            spec_reward(s.buff, pa, rpa, 20),
        ),
        Action::StandardTouch => (
            spec_set_great_strides(
                spec_next_turn(spec_consume_durability(spec_consume_cp(s, a), a), md),
                0,
            ),
            spec_reward(s.buff, pa, rpa, 25),
        ),
        Action::PrudentTouch => (
            spec_set_great_strides(
                spec_next_turn(spec_consume_durability(spec_consume_cp(s, a), a), md),
                0,
            ),
            spec_reward(s.buff, pa, rpa, 20),
        ),
        Action::FocusedTouch => (
            spec_set_great_strides(
                spec_next_turn(spec_consume_durability(spec_consume_cp(s, a), a), md),
                0,
            ),
            spec_reward(s.buff, pa, rpa, 30),
        ),
        Action::PreparatoryTouch => (
            spec_set_great_strides(
                spec_next_turn(spec_consume_durability(spec_consume_cp(s, a), a), md),
                0,
            ),
            spec_reward(s.buff, pa, rpa, 40),
        ),
        Action::ByregotsBlessing => (
            spec_set_great_strides(
                spec_set_inner_quiet(
                    spec_next_turn(spec_consume_durability(spec_consume_cp(s, a), a), md),
                    0,
                ),
                0,
            ),
            spec_reward(s.buff, pa, rpa, (4 + s.buff.inner_quiet) * 4),
        ),
        Action::MastersMend => (spec_add_durability(spec_next_turn(spec_consume_cp(s, a), md), 30, md), 0),
        Action::Observe => (spec_set_observe(spec_next_turn(spec_consume_cp(s, a), md)), 0),
        Action::WasteNot => (spec_set_waste_not(spec_next_turn(spec_consume_cp(s, a), md), 4), 0),
        Action::WasteNot2 => (spec_set_waste_not(spec_next_turn(spec_consume_cp(s, a), md), 8), 0),
        Action::GreatStrides => (
            spec_set_great_strides(spec_next_turn(spec_consume_cp(s, a), md), 3),
            0,
        ),
        Action::Innovation => (spec_set_innovation(spec_next_turn(spec_consume_cp(s, a), md), 4), 0),
        Action::Manipulation => (
            spec_set_manipulation(spec_next_turn(spec_consume_cp(s, a), md), 8),
            0,
        ),
    }
}

impl State {
    fn get_required_cp(&self, a: &Action) -> (r: u16)
        ensures
            r == spec_required_cp(*self, *a),
    {
        match a {
            Action::CannotAction => 0,
            Action::BasicTouch => 18,
            Action::StandardTouch => if self.buff.basic_touch > 0 { 18 } else { 32 },
            Action::PrudentTouch => 25,
            Action::FocusedTouch => 18,
            Action::PreparatoryTouch => 40,
            Action::ByregotsBlessing => 24,
            Action::MastersMend => 88,
            Action::Observe => 7,
            Action::WasteNot => 56,
            Action::WasteNot2 => 98,
            Action::GreatStrides => 32,
            Action::Innovation => 18,
            Action::Manipulation => 96,
        }
    }

    fn get_required_durability(&self, a: &Action) -> (r: u8)
        ensures
            r == spec_required_durability(*self, *a),
    {
        let d: u8 = match a {
            Action::CannotAction => 0,
            Action::BasicTouch => 10,
            Action::StandardTouch => 10,
            Action::PrudentTouch => 5,
            Action::FocusedTouch => 10,
            Action::PreparatoryTouch => 20,
            Action::ByregotsBlessing => 10,
            Action::MastersMend => 0,
            Action::Observe => 0,
            Action::WasteNot => 0,
            Action::WasteNot2 => 0,
            Action::GreatStrides => 0,
            Action::Innovation => 0,
            Action::Manipulation => 0,
        };

        if self.buff.waste_not > 0 { d / 2 } else { d }
    }

    /// Whether `a` may be taken from this state: affordable, and its
    /// applicability condition (if any) holds.
    pub fn check_action(&self, a: &Action) -> (r: bool)
        ensures
            r == spec_check_action(*self, *a),
    {
        if self.cp >= self.get_required_cp(a) {
            match a {
                Action::ByregotsBlessing => self.buff.inner_quiet >= 1,
                Action::PrudentTouch => self.buff.waste_not == 0,
                Action::FocusedTouch => self.buff.observe != 0,
                _ => true,
            }
        } else {
            false
        }
    }

    /// The exact immediate reward of a quality action with efficiency
    /// `eff20 / 20`, clamped to `u32`. Computed as a single fraction in
    /// `u128`, which the bounds below show cannot overflow.
    fn quality_reward(&self, setting: &Setting, eff20: u32) -> (r: u32)
        requires
            eff20 <= 1040,
        ensures
            r == spec_reward(
                self.buff,
                setting.process_accuracy,
                setting.required_process_accuracy,
                eff20 as int,
            ),
    {
        let pa: u128 = setting.process_accuracy as u128;
        let rpa: u128 = setting.required_process_accuracy as u128;
        let iq: u128 = self.buff.inner_quiet as u128;
        let f_num: u128 = if iq == 0 {
            pa
        } else {
            proof {
                assert(pa * (4 + iq) <= 0xffff_ffff * 259) by (nonlinear_arith)
                    requires
                        pa <= 0xffff_ffff,
                        iq <= 255,
                ;
            }
            pa * (4 + iq)
        };
        let f_den: u128 = if iq == 0 { 1 } else { 5 };
        let rate2: u128 = 2 + (if self.buff.great_strides > 0 { 2u128 } else { 0u128 }) + (
        if self.buff.innovation > 0 {
            1u128
        } else {
            0u128
        });
        proof {
            assert(f_num <= 0xffff_ffff * 259);
            assert(f_den == 1 || f_den == 5);
            assert(rate2 <= 5);
        }
        let left: u128 = 7 * f_num + 700 * f_den;
        let right: u128 = f_num + 10000 * f_den;
        proof {
            assert((3 * (eff20 as int)) * (rate2 as int) <= 15600) by (nonlinear_arith)
                requires
                    eff20 <= 1040,
                    0 <= rate2 <= 5,
            ;
        }
        let head: u128 = 3 * (eff20 as u128) * rate2;
        proof {
            assert(left <= 7786775709335);
            assert(right <= 1112396579405);
            assert(head <= 15600);
            assert((head as int) * (left as int) <= 15600 * 7786775709335) by (nonlinear_arith)
                requires
                    0 <= head <= 15600,
                    0 <= left <= 7786775709335,
            ;
            assert(((head as int) * (left as int)) * (right as int) <= 121473701065626000
                * 1112396579405) by (nonlinear_arith)
                requires
                    0 <= (head as int) * (left as int) <= 121473701065626000,
                    0 <= right <= 1112396579405,
            ;
            assert((4000 * (f_den as int)) * (f_den as int) <= 100000) by (nonlinear_arith)
                requires
                    0 <= f_den <= 5,
            ;
            assert(((4000 * (f_den as int)) * (f_den as int)) * (10000 + rpa as int) <= 100000 * (
            10000 + 0xffff_ffff)) by (nonlinear_arith)
                requires
                    0 <= (4000 * (f_den as int)) * (f_den as int) <= 100000,
                    0 <= rpa <= 0xffff_ffff,
            ;
            assert(((4000 * (f_den as int)) * (f_den as int)) * (10000 + rpa as int) >= 4000
                * 10000) by (nonlinear_arith)
                requires
                    f_den >= 1,
                    rpa >= 0,
            ;
        }
        let num: u128 = head * left * right;
        let den: u128 = 4000 * f_den * f_den * (10000 + rpa);
        let q: u128 = num / den;
        proof {
            assert(num == 3 * (eff20 as int) * (rate2 as int) * (7 * spec_f_num(
                self.buff.inner_quiet,
                setting.process_accuracy,
            ) + 700 * spec_f_den(self.buff.inner_quiet)) * (spec_f_num(
                self.buff.inner_quiet,
                setting.process_accuracy,
            ) + 10000 * spec_f_den(self.buff.inner_quiet)));
            assert(rate2 == spec_buff_rate2(self.buff));
        }
        if q > 0xffff_ffff {
            u32::MAX
        } else {
            q as u32
        }
    }

    fn byregots_quality_reward(&self, setting: &Setting) -> (r: u32)
        requires
            self.buff.inner_quiet >= 1,
        ensures
            r == spec_reward(
                self.buff,
                setting.process_accuracy,
                setting.required_process_accuracy,
                (4 + self.buff.inner_quiet) * 4,
            ),
    {
        self.quality_reward(setting, (4 + self.buff.inner_quiet as u32) * 4)
    }

    fn consume_cp(&self, a: &Action) -> (r: State)
        requires
            self.cp >= spec_required_cp(*self, *a),
        ensures
            r == spec_consume_cp(*self, *a),
    {
        State { cp: self.cp - self.get_required_cp(a), ..*self }
    }

    fn consume_durability(&self, a: &Action) -> (r: State)
        ensures
            r == spec_consume_durability(*self, *a),
    {
        State { durability: sub_clip(self.durability, self.get_required_durability(a)), ..*self }
    }

    fn add_durability(&self, x: u8, setting: &Setting) -> (r: State)
        ensures
            r == spec_add_durability(*self, x, setting.max_durability),
    {
        let raised: u16 = self.durability as u16 + x as u16;
        let capped: u8 = if raised > setting.max_durability as u16 {
            setting.max_durability
        } else {
            raised as u8
        };
        State { durability: capped, ..*self }
    }

    fn set_inner_quiet(&self, x: u8) -> (r: State)
        ensures
            r == spec_set_inner_quiet(*self, x),
    {
        State { buff: Buff { inner_quiet: x, ..self.buff }, ..*self }
    }

    fn set_manipulation(&self, x: u8) -> (r: State)
        ensures
            r == spec_set_manipulation(*self, x),
    {
        State { buff: Buff { manipulation: x, ..self.buff }, ..*self }
    }

    fn set_waste_not(&self, x: u8) -> (r: State)
        ensures
            r == spec_set_waste_not(*self, x),
    {
        State { buff: Buff { waste_not: x, ..self.buff }, ..*self }
    }

    fn set_great_strides(&self, x: u8) -> (r: State)
        ensures
            r == spec_set_great_strides(*self, x),
    {
        State { buff: Buff { great_strides: x, ..self.buff }, ..*self }
    }

    fn set_innovation(&self, x: u8) -> (r: State)
        ensures
            r == spec_set_innovation(*self, x),
    {
        State { buff: Buff { innovation: x, ..self.buff }, ..*self }
    }

    fn set_basic_touch(&self) -> (r: State)
        ensures
            r == spec_set_basic_touch(*self),
    {
        State { buff: Buff { basic_touch: 1, ..self.buff }, ..*self }
    }

    fn set_observe(&self) -> (r: State)
        ensures
            r == spec_set_observe(*self),
    {
        State { buff: Buff { observe: 1, ..self.buff }, ..*self }
    }

    fn next_turn(&self, setting: &Setting) -> (r: State)
        ensures
            r == spec_next_turn(*self, setting.max_durability),
    {
        let regenerated: u8 = if self.buff.manipulation == 0 || self.durability == 0 {
            self.durability
        } else {
            let raised: u16 = self.durability as u16 + 5;
            if raised > setting.max_durability as u16 {
                setting.max_durability
            } else {
                raised as u8
            }
        };
        State { durability: regenerated, cp: self.cp, buff: self.buff.next_turn() }
    }

    fn run_basic_touch(&self, setting: &Setting) -> (r: (State, u32))
        requires
            self.cp >= spec_required_cp(*self, Action::BasicTouch),
        ensures
            r == spec_run_action(*self, *setting, Action::BasicTouch),
    {
        (
            self.consume_cp(&Action::BasicTouch).consume_durability(&Action::BasicTouch).next_turn(
                setting,
            ).set_basic_touch().set_great_strides(0),
            self.quality_reward(setting, 20),
        )
    }

    fn run_standard_touch(&self, setting: &Setting) -> (r: (State, u32))
        requires
            self.cp >= spec_required_cp(*self, Action::StandardTouch),
        ensures
            r == spec_run_action(*self, *setting, Action::StandardTouch),
    {
        (
            self.consume_cp(&Action::StandardTouch).consume_durability(
                &Action::StandardTouch,
            ).next_turn(setting).set_great_strides(0),
            self.quality_reward(setting, 25),
        )
    }

    fn run_prudent_touch(&self, setting: &Setting) -> (r: (State, u32))
        requires
            self.cp >= spec_required_cp(*self, Action::PrudentTouch),
        ensures
            r == spec_run_action(*self, *setting, Action::PrudentTouch),
    {
        (
            self.consume_cp(&Action::PrudentTouch).consume_durability(
                &Action::PrudentTouch,
            ).next_turn(setting).set_great_strides(0),
            self.quality_reward(setting, 20),
        )
    }

    fn run_focused_touch(&self, setting: &Setting) -> (r: (State, u32))
        requires
            self.cp >= spec_required_cp(*self, Action::FocusedTouch),
        ensures
            r == spec_run_action(*self, *setting, Action::FocusedTouch),
    {
        (
            self.consume_cp(&Action::FocusedTouch).consume_durability(
                &Action::FocusedTouch,
            ).next_turn(setting).set_great_strides(0),
            self.quality_reward(setting, 30),
        )
    }

    fn run_preparatory_touch(&self, setting: &Setting) -> (r: (State, u32))
        requires
            self.cp >= spec_required_cp(*self, Action::PreparatoryTouch),
        ensures
            r == spec_run_action(*self, *setting, Action::PreparatoryTouch),
    {
        (
            self.consume_cp(&Action::PreparatoryTouch).consume_durability(
                &Action::PreparatoryTouch,
            ).next_turn(setting).set_great_strides(0),
            self.quality_reward(setting, 40),
        )
    }

    fn run_byregots_blessing(&self, setting: &Setting) -> (r: (State, u32))
        requires
            self.cp >= spec_required_cp(*self, Action::ByregotsBlessing),
            self.buff.inner_quiet >= 1,
        ensures
            r == spec_run_action(*self, *setting, Action::ByregotsBlessing),
    {
        (
            self.consume_cp(&Action::ByregotsBlessing).consume_durability(
                &Action::ByregotsBlessing,
            ).next_turn(setting).set_inner_quiet(0).set_great_strides(0),
            self.byregots_quality_reward(setting),
        )
    }

    fn run_masters_mend(&self, setting: &Setting) -> (r: (State, u32))
        requires
            self.cp >= spec_required_cp(*self, Action::MastersMend),
        ensures
            r == spec_run_action(*self, *setting, Action::MastersMend),
    {
        (self.consume_cp(&Action::MastersMend).next_turn(setting).add_durability(30, setting), 0)
    }

    fn run_observe(&self, setting: &Setting) -> (r: (State, u32))
        requires
            self.cp >= spec_required_cp(*self, Action::Observe),
        ensures
            r == spec_run_action(*self, *setting, Action::Observe),
    {
        (self.consume_cp(&Action::Observe).next_turn(setting).set_observe(), 0)
    }

    fn run_waste_not(&self, setting: &Setting) -> (r: (State, u32))
        requires
            self.cp >= spec_required_cp(*self, Action::WasteNot),
        ensures
            r == spec_run_action(*self, *setting, Action::WasteNot),
    {
        (self.consume_cp(&Action::WasteNot).next_turn(setting).set_waste_not(4), 0)
    }

    fn run_waste_not_2(&self, setting: &Setting) -> (r: (State, u32))
        requires
            self.cp >= spec_required_cp(*self, Action::WasteNot2),
        ensures
            r == spec_run_action(*self, *setting, Action::WasteNot2),
    {
        (self.consume_cp(&Action::WasteNot2).next_turn(setting).set_waste_not(8), 0)
    }

    fn run_great_strides(&self, setting: &Setting) -> (r: (State, u32))
        requires
            self.cp >= spec_required_cp(*self, Action::GreatStrides),
        ensures
            r == spec_run_action(*self, *setting, Action::GreatStrides),
    {
        (self.consume_cp(&Action::GreatStrides).next_turn(setting).set_great_strides(3), 0)
    }

    fn run_innovation(&self, setting: &Setting) -> (r: (State, u32))
        requires
            self.cp >= spec_required_cp(*self, Action::Innovation),
        ensures
            r == spec_run_action(*self, *setting, Action::Innovation),
    {
        (self.consume_cp(&Action::Innovation).next_turn(setting).set_innovation(4), 0)
    }

    fn run_manipulation(&self, setting: &Setting) -> (r: (State, u32))
        requires
            self.cp >= spec_required_cp(*self, Action::Manipulation),
        ensures
            r == spec_run_action(*self, *setting, Action::Manipulation),
    {
        (self.consume_cp(&Action::Manipulation).next_turn(setting).set_manipulation(8), 0)
    }

    /// The transition primitive: applies `a` to this state and returns the
    /// next state together with the immediate reward. The sentinel is not a
    /// runnable action, the action-point cost must be affordable, and the
    /// finishing action needs a positive stack counter.
    pub fn run_action(&self, setting: &Setting, a: &Action) -> (r: (State, u32))
        requires
            *a != Action::CannotAction,
            self.cp >= spec_required_cp(*self, *a),
            *a == Action::ByregotsBlessing ==> self.buff.inner_quiet >= 1,
        ensures
            r == spec_run_action(*self, *setting, *a),
    {
        match a {
            Action::CannotAction => (*self, 0),
            Action::BasicTouch => self.run_basic_touch(setting),
            Action::StandardTouch => self.run_standard_touch(setting),
            Action::PrudentTouch => self.run_prudent_touch(setting),
            Action::FocusedTouch => self.run_focused_touch(setting),
            Action::PreparatoryTouch => self.run_preparatory_touch(setting),
            Action::ByregotsBlessing => self.run_byregots_blessing(setting),
            Action::MastersMend => self.run_masters_mend(setting),
            Action::Observe => self.run_observe(setting),
            Action::WasteNot => self.run_waste_not(setting),
            Action::WasteNot2 => self.run_waste_not_2(setting),
            Action::GreatStrides => self.run_great_strides(setting),
            Action::Innovation => self.run_innovation(setting),
            Action::Manipulation => self.run_manipulation(setting),
        }
    }
}

/// Durability stays within bounds: from a state whose durability does not
/// exceed the configured maximum, one turn of natural decay — including the
/// regeneration of an active `manipulation` timer — any restore, and any
/// runnable action leave durability between 0 and that maximum. An incoming
/// active timer regenerates on the very turn `Manipulation` is taken, since
/// decay precedes the action's own side effect.
pub proof fn theorem_durability_bounds(s: State, setting: Setting, a: Action, x: u8)
    requires
        s.durability <= setting.max_durability,
        a != Action::CannotAction,
        s.cp >= spec_required_cp(s, a),
    ensures
        0 <= spec_next_turn(s, setting.max_durability).durability <= setting.max_durability,
        0 <= spec_add_durability(s, x, setting.max_durability).durability
            <= setting.max_durability,
        0 <= spec_run_action(s, setting, a).0.durability <= setting.max_durability,
        a == Action::Manipulation && s.buff.manipulation > 0 && s.durability > 0
            ==> spec_run_action(s, setting, a).0.durability == (
        if s.durability + 5 > setting.max_durability {
            setting.max_durability as int
        } else {
            s.durability + 5
        }),
{
}

/// The waste-not timer halves durability costs, rounding down: a touch
/// action with nominal cost 10 costs exactly 5 while it is active, and the
/// preparatory action with nominal cost 20 costs exactly 10.
pub proof fn theorem_waste_not_halves_cost(s: State, a: Action)
    requires
        s.buff.waste_not > 0,
    ensures
        spec_base_durability(a) == 10 ==> spec_required_durability(s, a) == 5,
        spec_base_durability(a) == 20 ==> spec_required_durability(s, a) == 10,
{
}

/// The mid-tier touch action costs 32 action points normally and exactly 18
/// while the `basic_touch` flag is active.
pub proof fn theorem_standard_touch_cost(s: State)
    ensures
        s.buff.basic_touch == 0 ==> spec_required_cp(s, Action::StandardTouch) == 32,
        s.buff.basic_touch != 0 ==> spec_required_cp(s, Action::StandardTouch) == 18,
{
}

/// Applicability gating: the finishing action needs a positive stack
/// counter, the frugal touch needs the waste-not timer inactive, and the
/// focus touch needs the observe flag.
pub proof fn theorem_applicability_gating(s: State)
    ensures
        s.buff.inner_quiet == 0 ==> !spec_check_action(s, Action::ByregotsBlessing),
        s.buff.waste_not > 0 ==> !spec_check_action(s, Action::PrudentTouch),
        s.buff.observe == 0 ==> !spec_check_action(s, Action::FocusedTouch),
{
}

} // verus!
