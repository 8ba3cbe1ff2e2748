//! The dense table and the backward-induction solver: processes states in
//! increasing action-point order, evaluating every applicable action per
//! state and keeping the one with the greatest total reward. Cells within one
//! action-point layer are independent — they only read strictly lower layers
//! — so one layer is solved in parallel.

use vstd::prelude::*;
use crate::logic::{Action, Setting, State, spec_check_action, spec_required_cp, spec_run_action};
use crate::statespace::{N_ADDR, StateSpace, lemma_same_mapping, same_mapping, spec_reachable};
use rayon::iter::IndexedParallelIterator;
use rayon::iter::IntoParallelIterator;
use rayon::iter::ParallelIterator;

verus! {

/// The candidate actions the solver tries, in catalog declaration order; the
/// sentinel is not a candidate.
pub open spec fn spec_candidate_action(k: int) -> Action {
    if k == 0 {
        Action::BasicTouch
    } else if k == 1 {
        Action::StandardTouch
    } else if k == 2 {
        Action::PrudentTouch
    } else if k == 3 {
        Action::FocusedTouch
    } else if k == 4 {
        Action::PreparatoryTouch
    } else if k == 5 {
        Action::ByregotsBlessing
    } else if k == 6 {
        Action::MastersMend
    } else if k == 7 {
        Action::Observe
    } else if k == 8 {
        Action::WasteNot
    } else if k == 9 {
        Action::WasteNot2
    } else if k == 10 {
        Action::GreatStrides
    } else if k == 11 {
        Action::Innovation
    } else {
        Action::Manipulation
    }
}

fn candidate_action(k: usize) -> (a: Action)
    requires
        k < 13,
    ensures
        a == spec_candidate_action(k as int),
{
    match k {
        0 => Action::BasicTouch,
        1 => Action::StandardTouch,
        2 => Action::PrudentTouch,
        3 => Action::FocusedTouch,
        4 => Action::PreparatoryTouch,
        5 => Action::ByregotsBlessing,
        6 => Action::MastersMend,
        7 => Action::Observe,
        8 => Action::WasteNot,
        9 => Action::WasteNot2,
        10 => Action::GreatStrides,
        11 => Action::Innovation,
        _ => Action::Manipulation,
    }
}

/// The total reward of taking `a` from `s`: its immediate reward plus the
/// already-computed value of the resulting state, clamped to `u32`; zero when
/// `a` is inapplicable or the resulting state leaves the table's domain.
pub open spec fn spec_cand(
    setting: Setting,
    values: Seq<u32>,
    space: StateSpace,
    s: State,
    a: Action,
) -> int {
    if spec_check_action(s, a) {
        let step = spec_run_action(s, setting, a);
        match space.spec_get_index(step.0) {
            Some(idx) => if step.1 + values[idx] > u32::MAX {
                u32::MAX as int
            } else {
                step.1 + values[idx]
            },
            None => 0,
        }
    } else {
        0
    }
}

/// The best action and total reward among the first `k` candidates, in
/// order: a later candidate replaces the current best only with a strictly
/// greater total, and a state with no positive candidate keeps the sentinel
/// with value zero.
pub open spec fn spec_best(
    setting: Setting,
    values: Seq<u32>,
    space: StateSpace,
    s: State,
    k: int,
) -> (Action, int)
    decreases k,
{
    if k <= 0 {
        (Action::CannotAction, 0int)
    } else {
        let prev = spec_best(setting, values, space, s, k - 1);
        let a = spec_candidate_action(k - 1);
        let v = spec_cand(setting, values, space, s, a);
        if v > prev.1 {
            (a, v)
        } else {
            prev
        }
    }
}

/// The cell the solver stores for `s`: the best of all 13 candidates.
pub open spec fn spec_calc_value(
    setting: Setting,
    values: Seq<u32>,
    space: StateSpace,
    s: State,
) -> (Action, int) {
    spec_best(setting, values, space, s, 13)
}

/// The chosen total is always a `u32`, and the sentinel is chosen exactly
/// when no candidate is positive.
pub proof fn lemma_best_bounds(
    setting: Setting,
    values: Seq<u32>,
    space: StateSpace,
    s: State,
    k: int,
)
    ensures
        0 <= spec_best(setting, values, space, s, k).1 <= u32::MAX,
    decreases k,
{
    if k > 0 {
        lemma_best_bounds(setting, values, space, s, k - 1);
    }
}

proof fn lemma_best_of_zero_cands(
    setting: Setting,
    values: Seq<u32>,
    space: StateSpace,
    s: State,
    k: int,
)
    requires
        0 <= k <= 13,
        forall|j: int|
            0 <= j < 13 ==> spec_cand(setting, values, space, s, #[trigger] spec_candidate_action(j))
                == 0,
    ensures
        spec_best(setting, values, space, s, k) == (Action::CannotAction, 0int),
    decreases k,
{
    if k > 0 {
        lemma_best_of_zero_cands(setting, values, space, s, k - 1);
        assert(spec_cand(setting, values, space, s, spec_candidate_action(k - 1)) == 0);
    }
}

/// With no action points nothing is affordable: every cell of the zero
/// layer holds the sentinel and value zero.
pub proof fn theorem_layer_zero(setting: Setting, values: Seq<u32>, space: StateSpace, s: State)
    requires
        s.cp == 0,
    ensures
        spec_calc_value(setting, values, space, s) == (Action::CannotAction, 0int),
{
    assert forall|j: int| 0 <= j < 13 implies spec_cand(
        setting,
        values,
        space,
        s,
        #[trigger] spec_candidate_action(j),
    ) == 0 by {
        assert(spec_required_cp(s, spec_candidate_action(j)) >= 7);
    }
    lemma_best_of_zero_cands(setting, values, space, s, 13);
}

proof fn lemma_best_action_applicable(
    setting: Setting,
    values: Seq<u32>,
    space: StateSpace,
    s: State,
    k: int,
)
    requires
        0 <= k <= 13,
    ensures
        spec_best(setting, values, space, s, k).0 != Action::CannotAction ==> spec_check_action(
            s,
            spec_best(setting, values, space, s, k).0,
        ) && spec_best(setting, values, space, s, k).1 > 0 && spec_cand(
            setting,
            values,
            space,
            s,
            spec_best(setting, values, space, s, k).0,
        ) == spec_best(setting, values, space, s, k).1,
    decreases k,
{
    if k > 0 {
        lemma_best_action_applicable(setting, values, space, s, k - 1);
    }
}

/// A non-sentinel policy can be replayed: the chosen action is applicable
/// from its state, its candidate total is positive, and that total is
/// exactly the stored value.
pub proof fn theorem_policy_applicable(
    setting: Setting,
    values: Seq<u32>,
    space: StateSpace,
    s: State,
)
    ensures
        spec_calc_value(setting, values, space, s).0 != Action::CannotAction ==> spec_check_action(
            s,
            spec_calc_value(setting, values, space, s).0,
        ) && spec_calc_value(setting, values, space, s).1 > 0 && spec_cand(
            setting,
            values,
            space,
            s,
            spec_calc_value(setting, values, space, s).0,
        ) == spec_calc_value(setting, values, space, s).1,
{
    lemma_best_action_applicable(setting, values, space, s, 13);
}

/// The base case of the backward induction, at the table level: every
/// solved cell of the zero layer holds value 0 and the sentinel policy.
pub proof fn theorem_base_case(
    setting: Setting,
    space: StateSpace,
    values: Seq<u32>,
    policies: Seq<Action>,
    k: int,
)
    requires
        spec_cell_ok(setting, space, values, policies, 0u16, k),
    ensures
        policies[k] == Action::CannotAction,
        values[k] == 0,
{
    let s = space.spec_state_at(0u16, k);
    theorem_layer_zero(setting, values.take(0), space, s);
    assert(0u16 * space.spec_size_cp() == 0) by (nonlinear_arith);
}

/// Evaluates one state against the already-solved lower layers and returns
/// the best action with its total reward.
pub fn calc_value(setting: &Setting, values: &Vec<u32>, space: &StateSpace, s: &State) -> (r: (
    Action,
    u32,
))
    requires
        space.wf(),
        setting.max_durability == space.max_durability,
        setting.max_cp == space.max_cp,
        values@.len() >= s.cp * space.spec_size_cp(),
    ensures
        (r.0, r.1 as int) == spec_calc_value(*setting, values@, *space, *s),
{
    let mut max_a = Action::CannotAction;
    let mut max_v: u32 = 0;
    let mut k: usize = 0;
    while k < 13
        invariant
            space.wf(),
            setting.max_durability == space.max_durability,
            setting.max_cp == space.max_cp,
            values@.len() >= s.cp * space.spec_size_cp(),
            k <= 13,
            (max_a, max_v as int) == spec_best(*setting, values@, *space, *s, k as int),
        decreases 13 - k,
    {
        let a = candidate_action(k);
        proof {
            lemma_best_bounds(*setting, values@, *space, *s, k as int);
        }
        if s.check_action(&a) {
            let (ns, q) = s.run_action(setting, &a);
            match space.get_index(&ns) {
                Some(idx) => {
                    proof {
                        space.lemma_get_index_bounds(ns);
                        let sc = space.spec_size_cp();
                        assert(spec_required_cp(*s, a) >= 7);
                        assert(ns.cp < s.cp);
                        assert(idx < ns.cp * sc + sc);
                        assert(ns.cp * sc + sc == (ns.cp + 1) * sc) by (nonlinear_arith);
                        assert((ns.cp + 1) * sc <= s.cp * sc) by (nonlinear_arith)
                            requires
                                ns.cp + 1 <= s.cp,
                                sc >= 0,
                        ;
                        assert(idx < values@.len());
                    }
                    let sum: u64 = q as u64 + values[idx] as u64;
                    let v: u32 = if sum > 0xffff_ffffu64 {
                        u32::MAX
                    } else {
                        sum as u32
                    };
                    if v > max_v {
                        max_a = a;
                        max_v = v;
                    }
                },
                None => {},
            }
        }
        k += 1;
    }
    (max_a, max_v)
}

/// Evaluates the `k`-th cell of the layer for action-point value `cp`.
fn calc_value_at(setting: &Setting, values: &Vec<u32>, space: &StateSpace, cp: u16, k: usize) -> (r:
    (u32, Action))
    requires
        space.wf(),
        setting.max_durability == space.max_durability,
        setting.max_cp == space.max_cp,
        cp <= space.max_cp,
        k < space.spec_size_cp(),
        values@.len() == cp * space.spec_size_cp(),
    ensures
        (r.1, r.0 as int) == spec_calc_value(
            *setting,
            values@,
            *space,
            space.spec_state_at(cp, k as int),
        ),
{
    let s = space.get_state_by_cp_index(cp, k);
    let (a, v) = calc_value(setting, values, space, &s);
    (v, a)
}

/// Solves one action-point layer, all cells in parallel.
///
/// Relies on rayon's `into_par_iter`, `map` and `unzip` over an index range:
/// the closure is applied to every index of the range exactly once, and both
/// components are collected in index order. The closure itself only calls
/// the verified `calc_value_at`, reading nothing but the already-solved
/// layers.
#[verifier::external_body]
fn par_solve_layer(
    setting: &Setting,
    values: &Vec<u32>,
    space: &StateSpace,
    cp: u16,
    n: usize,
) -> (r: (Vec<u32>, Vec<Action>))
    requires
        space.wf(),
        setting.max_durability == space.max_durability,
        setting.max_cp == space.max_cp,
        cp <= space.max_cp,
        n == space.spec_size_cp(),
        values@.len() == cp * space.spec_size_cp(),
    ensures
        r.0@.len() == n,
        r.1@.len() == n,
        forall|k: int|
            0 <= k < n ==> (#[trigger] r.1@[k], r.0@[k] as int) == spec_calc_value(
                *setting,
                values@,
                *space,
                space.spec_state_at(cp, k),
            ),
{
    (0..n).into_par_iter().map(|k| calc_value_at(setting, values, space, cp, k)).unzip()
}

/// A dense table over the state space: one slot per in-domain state,
/// addressed by the space's linear index.
#[derive(Debug)]
pub struct Table<T> {
    pub values: Vec<T>,
    pub space: StateSpace,
}

impl<T> Table<T> {
    /// A table has exactly one slot per in-domain state of its
    /// (well-formed) space.
    pub open spec fn wf(&self) -> bool {
        &&& self.space.wf()
        &&& self.values@.len() == self.space.spec_size()
    }

    /// Whether `s` lies in the table's domain.
    pub fn contains(&self, s: &State) -> (r: bool)
        requires
            self.wf(),
        ensures
            r == self.space.spec_exists(*s),
    {
        self.space.get_index(s).is_some()
    }
}

impl<T: Copy> Table<T> {
    /// The value stored for `s`. Callers must check `contains` first.
    pub fn get(&self, s: &State) -> (r: T)
        requires
            self.wf(),
            self.space.spec_exists(*s),
        ensures
            r == self.values@[self.space.spec_get_index(*s).unwrap()],
    {
        proof {
            self.space.lemma_get_index_bounds(*s);
        }
        let idx = self.space.get_index(s).unwrap();
        self.values[idx]
    }
}

/// One solved cell: the policy and value stored for the `k`-th state of
/// layer `cp` are the best choice against the layers below `cp`.
pub open spec fn spec_cell_ok(
    setting: Setting,
    space: StateSpace,
    values: Seq<u32>,
    policies: Seq<Action>,
    cp: u16,
    k: int,
) -> bool {
    let s = space.spec_state_at(cp, k);
    let idx = cp * space.spec_size_cp() + k;
    let best = spec_calc_value(setting, values.take(cp * space.spec_size_cp()), space, s);
    &&& policies[idx] == best.0
    &&& values[idx] == best.1
}

/// Whether the dense tables for a configuration fit the machine: the slot
/// count, taken over the full address space, stays within `usize`. This is
/// `calc_table`'s one machine limit, decided here at run time so that
/// callers need not reason about the product themselves.
pub fn table_fits(max_durability: u8, max_cp: u16) -> (r: bool)
    ensures
        r == ((max_cp + 1) * ((max_durability / 5) as int) * (N_ADDR as int) <= usize::MAX),
{
    let rows: u64 = max_cp as u64 + 1;
    let buckets: u64 = (max_durability / 5) as u64;
    proof {
        assert(rows * buckets <= 65536 * 51) by (nonlinear_arith)
            requires
                0 <= rows <= 65536,
                0 <= buckets <= 51,
        ;
        assert((rows * buckets) * (N_ADDR as int) <= 3342336 * 40656) by (nonlinear_arith)
            requires
                0 <= rows * buckets <= 3342336,
        ;
    }
    let product: u64 = rows * buckets * (N_ADDR as u64);
    product <= usize::MAX as u64
}

/// Builds the value table and the policy table for a configuration by
/// backward induction over action-point layers, in strictly increasing
/// order: every non-sentinel action costs action points, so a cell only ever
/// reads cells of strictly lower layers, which are already final.
pub fn calc_table(setting: &Setting) -> (r: (Table<u32>, Table<Action>))
    requires
        setting.max_durability % 5 == 0,
        (setting.max_cp + 1) * ((setting.max_durability / 5) as int) * N_ADDR <= usize::MAX,
    ensures
        r.0.wf(),
        r.1.wf(),
        same_mapping(r.0.space, r.1.space),
        r.1.space.max_durability == setting.max_durability,
        r.1.space.max_cp == setting.max_cp,
        forall|b: crate::logic::Buff|
            (#[trigger] r.1.space.spec_contains_buff(b)) <==> spec_reachable(b, setting.sustain),
        forall|cp: u16, k: int|
            cp <= setting.max_cp && 0 <= k < r.1.space.spec_size_cp() ==> #[trigger] spec_cell_ok(
                *setting,
                r.1.space,
                r.0.values@,
                r.1.values@,
                cp,
                k,
            ),
{
    let space = StateSpace::new(setting.max_durability, setting.max_cp, setting.sustain);
    let size_cp = space.size_cp();

    let mut v_buffer: Vec<u32> = Vec::new();
    let mut a_buffer: Vec<Action> = Vec::new();

    let mut cp: u32 = 0;
    while cp <= setting.max_cp as u32
        invariant
            space.wf(),
            space.max_durability == setting.max_durability,
            space.max_cp == setting.max_cp,
            forall|b: crate::logic::Buff|
                (#[trigger] space.spec_contains_buff(b)) <==> spec_reachable(b, setting.sustain),
            size_cp == space.spec_size_cp(),
            cp <= setting.max_cp as u32 + 1,
            v_buffer@.len() == cp * space.spec_size_cp(),
            a_buffer@.len() == cp * space.spec_size_cp(),
            forall|c: u16, k: int|
                c < cp && 0 <= k < space.spec_size_cp() ==> #[trigger] spec_cell_ok(
                    *setting,
                    space,
                    v_buffer@,
                    a_buffer@,
                    c,
                    k,
                ),
        decreases setting.max_cp as int + 1 - cp,
    {
        let ghost v_old = v_buffer@;
        let ghost a_old = a_buffer@;
        proof {
            assert(cp * space.spec_size_cp() <= space.max_cp * space.spec_size_cp())
                by (nonlinear_arith)
                requires
                    cp <= space.max_cp,
                    space.spec_size_cp() >= 0,
            ;
            assert(space.max_cp * space.spec_size_cp() + space.spec_size_cp() == (space.max_cp + 1)
                * space.spec_size_cp()) by (nonlinear_arith);
        }
        let (mut va, mut aa) = par_solve_layer(setting, &v_buffer, &space, cp as u16, size_cp);
        let ghost va_s = va@;
        let ghost aa_s = aa@;
        v_buffer.append(&mut va);
        a_buffer.append(&mut aa);
        proof {
            let sc = space.spec_size_cp();
            assert((cp + 1) * sc == cp * sc + sc) by (nonlinear_arith);
            assert forall|c: u16, k: int| c < cp + 1 && 0 <= k < sc implies #[trigger] spec_cell_ok(
                *setting,
                space,
                v_buffer@,
                a_buffer@,
                c,
                k,
            ) by {
                assert(c * sc + sc <= cp * sc + sc) by (nonlinear_arith)
                    requires
                        c <= cp,
                        sc >= 0,
                ;
                assert(v_buffer@.take(c * sc) =~= v_old.take(c * sc));
                if c < cp {
                    assert(spec_cell_ok(*setting, space, v_old, a_old, c, k));
                    assert(0 <= c * sc + k < c * sc + sc) by (nonlinear_arith)
                        requires
                            0 <= k < sc,
                            c >= 0,
                            sc >= 0,
                    ;
                    assert(c * sc + sc <= cp * sc) by (nonlinear_arith)
                        requires
                            c + 1 <= cp,
                            sc >= 0,
                    ;
                    assert(v_buffer@[c * sc + k] == v_old[c * sc + k]);
                    assert(a_buffer@[c * sc + k] == a_old[c * sc + k]);
                } else {
                    assert(c == cp);
                    assert(v_buffer@[c * sc + k] == va_s[k]);
                    assert(a_buffer@[c * sc + k] == aa_s[k]);
                    assert((aa_s[k], va_s[k] as int) == spec_calc_value(
                        *setting,
                        v_old,
                        space,
                        space.spec_state_at(c, k),
                    ));
                    assert(v_old.take(c * sc) =~= v_old);
                }
            }
        }
        cp = cp + 1;
    }

    proof {
        assert(v_buffer@.len() == (setting.max_cp + 1) * space.spec_size_cp());
    }
    let space2 = space.duplicate();
    proof {
        lemma_same_mapping(space2, space);
    }
    (Table { values: v_buffer, space: space2 }, Table { values: a_buffer, space })
}

} // verus!
