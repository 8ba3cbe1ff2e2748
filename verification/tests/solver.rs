use craft_solver::logic::{Action, Buff, Setting, State};
use craft_solver::statespace::StateSpace;
use craft_solver::table::calc_table;

fn start_buff() -> Buff {
    Buff {
        inner_quiet: 11,
        manipulation: 0,
        innovation: 0,
        great_strides: 0,
        waste_not: 0,
        basic_touch: 0,
        observe: 0,
    }
}

const ALL_ACTIONS: [Action; 13] = [
    Action::BasicTouch,
    Action::StandardTouch,
    Action::PrudentTouch,
    Action::FocusedTouch,
    Action::PreparatoryTouch,
    Action::ByregotsBlessing,
    Action::MastersMend,
    Action::Observe,
    Action::WasteNot,
    Action::WasteNot2,
    Action::GreatStrides,
    Action::Innovation,
    Action::Manipulation,
];

#[test]
fn ordinary_configurations_fit() {
    assert!(craft_solver::table::table_fits(55, 657));
    assert!(craft_solver::table::table_fits(255, 65535) == (usize::BITS == 64));
}

#[test]
fn base_layer_holds_sentinel_and_zero() {
    let setting = Setting {
        max_durability: 20,
        max_cp: 30,
        sustain: false,
        process_accuracy: 100,
        required_process_accuracy: 100,
    };
    let (tv, ta) = calc_table(&setting);
    for d in [5u8, 10, 15, 20] {
        let s = State { durability: d, cp: 0, buff: start_buff() };
        assert!(ta.contains(&s));
        assert_eq!(ta.get(&s), Action::CannotAction);
        assert_eq!(tv.get(&s), 0);
    }
}

#[test]
fn reachable_set_is_closed() {
    let setting = Setting {
        max_durability: 55,
        max_cp: 657,
        sustain: false,
        process_accuracy: 100,
        required_process_accuracy: 100,
    };
    let space = StateSpace::new(setting.max_durability, setting.max_cp, setting.sustain);
    let member = |b: Buff| -> bool {
        let probe = State { durability: 5, cp: 0, buff: b };
        space.get_index(&probe).is_some()
    };
    assert!(member(start_buff()));
    for i in 0..space.buffs.len() {
        let b = space.buffs[i];
        assert!(member(b));
        // closed under natural decay
        assert!(member(b.next_turn()));
        // closed under every applicable action's modifier side effect
        for a in ALL_ACTIONS.iter() {
            let s = State { durability: 55, cp: 657, buff: b };
            if s.check_action(a) {
                let (ns, _) = s.run_action(&setting, a);
                assert!(member(ns.buff));
            }
        }
    }
}

#[test]
fn sustained_lengths_extend_the_reachable_set() {
    let plain = StateSpace::new(55, 30, false);
    let sustained = StateSpace::new(55, 30, true);
    // a manipulation timer of 9 only arises by decaying the sustained
    // activation length 10
    let b = Buff { manipulation: 9, ..start_buff() };
    let probe = State { durability: 5, cp: 0, buff: b };
    assert!(plain.get_index(&probe).is_none());
    assert!(sustained.get_index(&probe).is_some());
}

#[test]
fn index_rejects_out_of_domain_states() {
    let space = StateSpace::new(55, 100, false);
    let ok = State { durability: 25, cp: 74, buff: start_buff() };
    assert!(space.get_index(&ok).is_some());
    let depleted = State { durability: 0, cp: 74, buff: start_buff() };
    assert!(space.get_index(&depleted).is_none());
    let ragged = State { durability: 27, cp: 74, buff: start_buff() };
    assert!(space.get_index(&ragged).is_none());
    let oversized = State { durability: 60, cp: 74, buff: start_buff() };
    assert!(space.get_index(&oversized).is_none());
    let rich = State { durability: 25, cp: 101, buff: start_buff() };
    assert!(space.get_index(&rich).is_none());
    let wild = State {
        durability: 25,
        cp: 74,
        buff: Buff { manipulation: 200, ..start_buff() },
    };
    assert!(space.get_index(&wild).is_none());
}

#[test]
fn layer_slots_decode_back_to_their_index() {
    let space = StateSpace::new(55, 100, false);
    let size_cp = space.size_cp();
    assert_eq!(space.size(), 101 * size_cp);
    for k in [0usize, 1, size_cp / 2, size_cp - 1] {
        let s = space.get_state_by_cp_index(7, k);
        assert_eq!(s.cp, 7);
        assert_eq!(space.get_index(&s), Some(7 * size_cp + k));
    }
}

#[test]
fn duplicate_preserves_the_mapping() {
    let space = StateSpace::new(55, 100, false);
    let copy = space.duplicate();
    assert_eq!(copy.size(), space.size());
    let s = State { durability: 25, cp: 74, buff: start_buff() };
    assert_eq!(copy.get_index(&s), space.get_index(&s));
}

#[test]
fn solver_prices_a_single_forced_touch() {
    // with 18 action points and the full stack counter, the only rewarding
    // line is one basic touch: f = 100 * 3 = 300, q1 = 140,
    // q2 = 140 * 10300 / 10100, q3 = 0.6 * that, reward = floor(85.66) = 85
    let setting = Setting {
        max_durability: 20,
        max_cp: 18,
        sustain: false,
        process_accuracy: 100,
        required_process_accuracy: 100,
    };
    let (tv, ta) = calc_table(&setting);
    let s = State { durability: 20, cp: 18, buff: start_buff() };
    assert!(ta.contains(&s));
    assert_eq!(ta.get(&s), Action::BasicTouch);
    assert_eq!(tv.get(&s), 85);
    // the same state with no stacks is worth floor(42 * 1.0) = 42
    let bare = State {
        durability: 20,
        cp: 18,
        buff: Buff { inner_quiet: 0, ..start_buff() },
    };
    assert_eq!(tv.get(&bare), 42);
}

#[test]
fn end_to_end_replay_reaches_the_sentinel() {
    let setting = Setting {
        max_durability: 55,
        max_cp: 657,
        sustain: false,
        process_accuracy: 2910,
        required_process_accuracy: 2540,
    };
    let (tv, ta) = calc_table(&setting);
    let start = State { durability: 25, cp: 74, buff: start_buff() };
    assert!(ta.contains(&start));

    let mut s = start;
    let mut total: u64 = 0;
    let mut steps = 0;
    loop {
        assert!(ta.contains(&s));
        let a = ta.get(&s);
        if a == Action::CannotAction {
            break;
        }
        let (ns, q) = s.run_action(&setting, &a);
        let previous = total;
        total += q as u64;
        // the accumulated reward never decreases
        assert!(total >= previous);
        // every step spends action points, so the replay terminates
        assert!(ns.cp < s.cp);
        s = ns;
        steps += 1;
        assert!(steps <= 658);
    }
    // the optimal total from the start state is what the value table claims
    assert_eq!(total, tv.get(&start) as u64);
    assert!(steps > 0);
}
