use craft_solver::logic::{Action, Buff, Setting, State};

fn start_buff() -> Buff {
    Buff {
        inner_quiet: 11,
        manipulation: 0,
        innovation: 0,
        great_strides: 0,
        waste_not: 0,
        basic_touch: 0,
        observe: 0,
    }
}

fn plain_setting() -> Setting {
    Setting {
        max_durability: 55,
        max_cp: 657,
        sustain: false,
        process_accuracy: 100,
        required_process_accuracy: 100,
    }
}

#[test]
fn decay_clamps_each_timer_at_zero() {
    let b = Buff {
        inner_quiet: 11,
        manipulation: 3,
        innovation: 1,
        great_strides: 0,
        waste_not: 8,
        basic_touch: 1,
        observe: 0,
    };
    let n = b.next_turn();
    assert_eq!(n.inner_quiet, 11);
    assert_eq!(n.manipulation, 2);
    assert_eq!(n.innovation, 0);
    assert_eq!(n.great_strides, 0);
    assert_eq!(n.waste_not, 7);
    assert_eq!(n.basic_touch, 0);
    assert_eq!(n.observe, 0);
}

#[test]
fn reward_scenario_yields_42() {
    // accuracy 100 against requirement 100, no stacks, no reward buffs:
    // f = 100, q1 = 70, q2 = 70, q3 = 42, reward = floor(42 * 1.0 * 1.0)
    let setting = plain_setting();
    let b = Buff { inner_quiet: 0, ..start_buff() };
    let s = State { durability: 40, cp: 100, buff: b };
    let (_, q) = s.run_action(&setting, &Action::BasicTouch);
    assert_eq!(q, 42);
}

#[test]
fn buff_rate_stacks_to_two_and_a_half() {
    // the same scenario with great strides and innovation active multiplies
    // the reward by 1 + 1 + 0.5
    let setting = plain_setting();
    let b = Buff { inner_quiet: 0, great_strides: 3, innovation: 4, ..start_buff() };
    let s = State { durability: 40, cp: 100, buff: b };
    let (ns, q) = s.run_action(&setting, &Action::BasicTouch);
    assert_eq!(q, 105);
    // performing the touch clears great strides
    assert_eq!(ns.buff.great_strides, 0);
}

#[test]
fn reward_clamps_at_u32_max() {
    let setting = Setting {
        max_durability: 55,
        max_cp: 657,
        sustain: false,
        process_accuracy: u32::MAX,
        required_process_accuracy: 0,
    };
    let s = State { durability: 55, cp: 100, buff: start_buff() };
    let (_, q) = s.run_action(&setting, &Action::BasicTouch);
    assert_eq!(q, u32::MAX);
}

#[test]
fn waste_not_halves_durability_costs() {
    // nominal cost 10 becomes 5, nominal cost 20 becomes 10
    let setting = plain_setting();
    let b = Buff { waste_not: 4, ..start_buff() };
    let s = State { durability: 55, cp: 657, buff: b };
    let (ns, _) = s.run_action(&setting, &Action::BasicTouch);
    assert_eq!(ns.durability, 50);
    let (np, _) = s.run_action(&setting, &Action::PreparatoryTouch);
    assert_eq!(np.durability, 45);
    // without the timer the full costs are paid
    let s2 = State { durability: 55, cp: 657, buff: start_buff() };
    let (ns2, _) = s2.run_action(&setting, &Action::BasicTouch);
    assert_eq!(ns2.durability, 45);
    let (np2, _) = s2.run_action(&setting, &Action::PreparatoryTouch);
    assert_eq!(np2.durability, 35);
}

#[test]
fn standard_touch_cost_drops_with_flag() {
    let setting = plain_setting();
    let flagged = State {
        durability: 55,
        cp: 100,
        buff: Buff { basic_touch: 1, ..start_buff() },
    };
    let (ns, _) = flagged.run_action(&setting, &Action::StandardTouch);
    assert_eq!(ns.cp, 82); // cost 18
    let plain = State { durability: 55, cp: 100, buff: start_buff() };
    let (np, _) = plain.run_action(&setting, &Action::StandardTouch);
    assert_eq!(np.cp, 68); // cost 32
}

#[test]
fn applicability_gating() {
    let no_stacks = State {
        durability: 55,
        cp: 657,
        buff: Buff { inner_quiet: 0, ..start_buff() },
    };
    assert!(!no_stacks.check_action(&Action::ByregotsBlessing));
    let with_stacks = State { durability: 55, cp: 657, buff: start_buff() };
    assert!(with_stacks.check_action(&Action::ByregotsBlessing));

    let frugal_blocked = State {
        durability: 55,
        cp: 657,
        buff: Buff { waste_not: 2, ..start_buff() },
    };
    assert!(!frugal_blocked.check_action(&Action::PrudentTouch));
    assert!(with_stacks.check_action(&Action::PrudentTouch));

    assert!(!with_stacks.check_action(&Action::FocusedTouch));
    let observed = State {
        durability: 55,
        cp: 657,
        buff: Buff { observe: 1, ..start_buff() },
    };
    assert!(observed.check_action(&Action::FocusedTouch));
}

#[test]
fn unaffordable_actions_are_inapplicable() {
    let broke = State { durability: 55, cp: 6, buff: start_buff() };
    assert!(!broke.check_action(&Action::Observe)); // costs 7
    assert!(!broke.check_action(&Action::BasicTouch));
    let scraping = State { durability: 55, cp: 7, buff: start_buff() };
    assert!(scraping.check_action(&Action::Observe));
}

#[test]
fn durability_stays_within_bounds() {
    let setting = plain_setting();
    let actions = [
        Action::BasicTouch,
        Action::StandardTouch,
        Action::PrudentTouch,
        Action::FocusedTouch,
        Action::PreparatoryTouch,
        Action::ByregotsBlessing,
        Action::MastersMend,
        Action::Observe,
        Action::WasteNot,
        Action::WasteNot2,
        Action::GreatStrides,
        Action::Innovation,
        Action::Manipulation,
    ];
    for d in [5u8, 25, 55] {
        for a in actions.iter() {
            let s = State { durability: d, cp: 657, buff: start_buff() };
            let (ns, _) = s.run_action(&setting, a);
            assert!(ns.durability <= setting.max_durability);
        }
    }
}

#[test]
fn masters_mend_caps_at_max_durability() {
    let setting = plain_setting();
    let s = State { durability: 50, cp: 657, buff: start_buff() };
    let (ns, q) = s.run_action(&setting, &Action::MastersMend);
    assert_eq!(ns.durability, 55);
    assert_eq!(q, 0);
}

#[test]
fn manipulation_regenerates_but_never_above_max() {
    let setting = plain_setting();
    // manipulation set on this turn: the next turn regenerates 5
    let s = State {
        durability: 55,
        cp: 657,
        buff: Buff { manipulation: 8, ..start_buff() },
    };
    let (ns, _) = s.run_action(&setting, &Action::Observe);
    assert_eq!(ns.durability, 55); // capped at the maximum
    assert_eq!(ns.buff.manipulation, 7);
    let low = State {
        durability: 25,
        cp: 657,
        buff: Buff { manipulation: 8, ..start_buff() },
    };
    let (nl, _) = low.run_action(&setting, &Action::Observe);
    assert_eq!(nl.durability, 30);
}

#[test]
fn manipulation_regenerates_on_its_own_turn() {
    // decay precedes the action's side effect, so an active incoming timer
    // restores 5 durability on the very turn the timer is renewed
    let setting = plain_setting();
    let s = State {
        durability: 25,
        cp: 657,
        buff: Buff { manipulation: 3, ..start_buff() },
    };
    let (ns, q) = s.run_action(&setting, &Action::Manipulation);
    assert_eq!(ns.durability, 30);
    assert_eq!(ns.buff.manipulation, 8);
    assert_eq!(q, 0);
    // capped at the maximum
    let full = State {
        durability: 55,
        cp: 657,
        buff: Buff { manipulation: 3, ..start_buff() },
    };
    let (nf, _) = full.run_action(&setting, &Action::Manipulation);
    assert_eq!(nf.durability, 55);
    // without an incoming timer nothing regenerates
    let cold = State { durability: 25, cp: 657, buff: start_buff() };
    let (nc, _) = cold.run_action(&setting, &Action::Manipulation);
    assert_eq!(nc.durability, 25);
    assert_eq!(nc.buff.manipulation, 8);
}

#[test]
fn masters_mend_restores_after_decay() {
    // a depleted state does not regenerate during decay; the restore is the
    // action's own side effect, applied afterwards
    let setting = plain_setting();
    let s = State {
        durability: 0,
        cp: 657,
        buff: Buff { manipulation: 3, ..start_buff() },
    };
    let (ns, _) = s.run_action(&setting, &Action::MastersMend);
    assert_eq!(ns.durability, 30);
}

#[test]
fn byregots_consumes_stacks_and_uses_them() {
    let setting = plain_setting();
    let s = State { durability: 55, cp: 657, buff: start_buff() };
    let (ns, q) = s.run_action(&setting, &Action::ByregotsBlessing);
    assert_eq!(ns.buff.inner_quiet, 0);
    // iq = 11: f = 100 * 3 = 300, q1 = 140, q2 = 140 * 10300 / 10100,
    // q3 = 0.6 * that, efficiency = 1 + 10 * 0.2 = 3, rate 1:
    // reward = floor(142.7722... * 0.6 * 3) = floor(256.99) = 256
    assert_eq!(q, 256);
}

#[test]
fn observe_sets_flag_for_one_turn() {
    let setting = plain_setting();
    let s = State { durability: 55, cp: 657, buff: start_buff() };
    let (ns, _) = s.run_action(&setting, &Action::Observe);
    assert_eq!(ns.buff.observe, 1);
    let (nn, _) = ns.run_action(&setting, &Action::GreatStrides);
    assert_eq!(nn.buff.observe, 0);
    assert_eq!(nn.buff.great_strides, 3);
}
