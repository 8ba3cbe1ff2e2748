//! The state-space enumerator: discovers the finite set of modifier
//! combinations reachable from the canonical start combination by a
//! fixed-point worklist traversal, and builds a direct-addressed mapping from
//! combination to a dense index.

use vstd::prelude::*;
use crate::logic::{Action, Buff, Setting, State, spec_buff_decay, spec_run_action};

verus! {

/// Radix of the `manipulation` field: its largest activation length plus one.
pub const N_MANIPULATION: usize = 11;

/// Radix of the `innovation` field.
pub const N_INNOVATION: usize = 7;

/// Radix of the `great_strides` field.
pub const N_GREAT_STRIDES: usize = 6;

/// Radix of the `waste_not` field.
pub const N_WASTE_NOT: usize = 11;

/// Radix of the `basic_touch` flag.
pub const N_BASIC_TOUCH: usize = 2;

/// Radix of the `observe` flag.
pub const N_OBSERVE: usize = 2;

/// Radix of the stack counter, which is encoded as a binary
/// "holds the start value or zero" flag.
pub const N_INNER_QUIET: usize = 2;

/// Number of distinct mixed-radix addresses.
pub const N_ADDR: usize = 11 * 7 * 6 * 11 * 2 * 2 * 2;

/// The canonical start value of the stack counter.
pub const START_INNER_QUIET: u8 = 11;

/// A modifier combination whose fields lie within the radixes of the
/// direct-address encoding: every reachable combination does. The stack
/// counter only ever holds the canonical start value or zero.
pub open spec fn buff_wf(b: Buff) -> bool {
    &&& b.manipulation < 11
    &&& b.innovation < 7
    &&& b.great_strides < 6
    &&& b.waste_not < 11
    &&& b.basic_touch < 2
    &&& b.observe < 2
    &&& (b.inner_quiet == 0 || b.inner_quiet == START_INNER_QUIET)
}

/// The stack counter normalized to a binary digit before encoding.
pub open spec fn spec_iq_bit(iq: u8) -> int {
    if iq == 0 { 0 } else { 1 }
}

/// The mixed-radix address of a combination: one digit per modifier field,
/// accumulated most-significant first.
pub open spec fn spec_buff_addr(b: Buff) -> int {
    let x1 = b.manipulation * 7 + b.innovation;
    let x2 = x1 * 6 + b.great_strides;
    let x3 = x2 * 11 + b.waste_not;
    let x4 = x3 * 2 + b.basic_touch;
    let x5 = x4 * 2 + b.observe;
    x5 * 2 + spec_iq_bit(b.inner_quiet)
}

/// Distinct well-formed combinations get distinct addresses: each digit is
/// below its radix, so the mixed-radix digits can be peeled off one by one.
pub proof fn lemma_buff_addr_injective(x: Buff, y: Buff)
    requires
        buff_wf(x),
        buff_wf(y),
        spec_buff_addr(x) == spec_buff_addr(y),
    ensures
        x == y,
{
    assert(spec_iq_bit(x.inner_quiet) == spec_iq_bit(y.inner_quiet) && x.observe == y.observe
        && x.basic_touch == y.basic_touch && x.waste_not == y.waste_not && x.great_strides
        == y.great_strides && x.innovation == y.innovation && x.manipulation == y.manipulation);
}

impl StateSpace {
    /// The mixed-radix address of a well-formed combination, used as the slot
    /// in the direct-addressed lookup table.
    pub fn buff_to_addr(s: &Buff) -> (r: usize)
        requires
            buff_wf(*s),
        ensures
            r == spec_buff_addr(*s),
            r < N_ADDR,
    {
        let mut x: usize = s.manipulation as usize;
        x = x * N_INNOVATION + s.innovation as usize;
        x = x * N_GREAT_STRIDES + s.great_strides as usize;
        x = x * N_WASTE_NOT + s.waste_not as usize;
        x = x * N_BASIC_TOUCH + s.basic_touch as usize;
        x = x * N_OBSERVE + s.observe as usize;
        x = x * N_INNER_QUIET + if s.inner_quiet == 0 { 0 } else { 1 };
        x
    }
}

/// The canonical start combination: the full stack counter, no timers, no
/// flags.
pub open spec fn spec_initial_buff() -> Buff {
    Buff {
        inner_quiet: START_INNER_QUIET,
        manipulation: 0,
        innovation: 0,
        great_strides: 0,
        waste_not: 0,
        basic_touch: 0,
        observe: 0,
    }
}

fn initial_buff_state() -> (b: Buff)
    ensures
        b == spec_initial_buff(),
{
    Buff {
        inner_quiet: START_INNER_QUIET,
        manipulation: 0,
        innovation: 0,
        great_strides: 0,
        waste_not: 0,
        basic_touch: 0,
        observe: 0,
    }
}

/// The successor combinations generated from `b` by the traversal: the
/// one-turn decay of `b`, and the decay with one field overwritten to each
/// activation value — including the longer sustained activation values when
/// `sustain` is enabled.
pub open spec fn spec_gen_succs(b: Buff, sustain: bool) -> Seq<Buff> {
    let ns = spec_buff_decay(b);
    let base = seq![
        ns,
        Buff { manipulation: 8, ..ns },
        Buff { innovation: 4, ..ns },
        Buff { great_strides: 3, ..ns },
        Buff { waste_not: 4, ..ns },
        Buff { waste_not: 8, ..ns },
        Buff { basic_touch: 1, ..ns },
        Buff { observe: 1, ..ns },
        Buff { inner_quiet: 0, ..ns },
    ];
    if sustain {
        base + seq![
            Buff { manipulation: 10, ..ns },
            Buff { innovation: 6, ..ns },
            Buff { great_strides: 5, ..ns },
            Buff { waste_not: 6, ..ns },
            Buff { waste_not: 10, ..ns },
        ]
    } else {
        base
    }
}

/// Whether `b` can be produced from the canonical start combination by `n`
/// traversal steps.
pub open spec fn spec_reach_n(b: Buff, n: nat, sustain: bool) -> bool
    decreases n,
{
    if n == 0 {
        b == spec_initial_buff()
    } else {
        exists|p: Buff|
            spec_reach_n(p, (n - 1) as nat, sustain) && spec_gen_succs(p, sustain).contains(b)
    }
}

/// Membership in the Reachable Modifier Set: the fixed-point closure of the
/// canonical start combination under the traversal's successor rules.
pub open spec fn spec_reachable(b: Buff, sustain: bool) -> bool {
    exists|n: nat| spec_reach_n(b, n, sustain)
}

/// Every successor of a well-formed combination is well-formed: decay only
/// lowers the timers, and each overwrite stays below its field's radix.
pub proof fn lemma_gen_succs_wf(b: Buff, sustain: bool)
    requires
        buff_wf(b),
    ensures
        forall|k: int|
            0 <= k < spec_gen_succs(b, sustain).len() ==> buff_wf(
                #[trigger] spec_gen_succs(b, sustain)[k],
            ),
{
}

/// Every reachable combination is well-formed.
pub proof fn lemma_reach_n_wf(b: Buff, n: nat, sustain: bool)
    requires
        spec_reach_n(b, n, sustain),
    ensures
        buff_wf(b),
    decreases n,
{
    if n > 0 {
        let p = choose|p: Buff|
            spec_reach_n(p, (n - 1) as nat, sustain) && spec_gen_succs(p, sustain).contains(b);
        lemma_reach_n_wf(p, (n - 1) as nat, sustain);
        lemma_gen_succs_wf(p, sustain);
    }
}

pub proof fn lemma_reachable_wf(b: Buff, sustain: bool)
    requires
        spec_reachable(b, sustain),
    ensures
        buff_wf(b),
{
    let n = choose|n: nat| spec_reach_n(b, n, sustain);
    lemma_reach_n_wf(b, n, sustain);
}

/// The Reachable Modifier Set is closed under the successor rules.
pub proof fn lemma_reachable_succs(b: Buff, sustain: bool, k: int)
    requires
        spec_reachable(b, sustain),
        0 <= k < spec_gen_succs(b, sustain).len(),
    ensures
        spec_reachable(spec_gen_succs(b, sustain)[k], sustain),
{
    let n = choose|n: nat| spec_reach_n(b, n, sustain);
    let c = spec_gen_succs(b, sustain)[k];
    assert(spec_gen_succs(b, sustain).contains(c));
    assert(spec_reach_n(c, n + 1, sustain));
}

/// The canonical start combination is reachable.
pub proof fn lemma_initial_reachable(sustain: bool)
    ensures
        spec_reachable(spec_initial_buff(), sustain),
{
    assert(spec_reach_n(spec_initial_buff(), 0, sustain));
}

/// Exec counterpart of `spec_gen_succs`.
fn gen_succs(b: &Buff, sustain: bool) -> (v: Vec<Buff>)
    ensures
        v@ == spec_gen_succs(*b, sustain),
{
    let ns = b.next_turn();
    let mut v: Vec<Buff> = Vec::new();
    v.push(ns);
    v.push(Buff { manipulation: 8, ..ns });
    v.push(Buff { innovation: 4, ..ns });
    v.push(Buff { great_strides: 3, ..ns });
    v.push(Buff { waste_not: 4, ..ns });
    v.push(Buff { waste_not: 8, ..ns });
    v.push(Buff { basic_touch: 1, ..ns });
    v.push(Buff { observe: 1, ..ns });
    v.push(Buff { inner_quiet: 0, ..ns });
    if sustain {
        v.push(Buff { manipulation: 10, ..ns });
        v.push(Buff { innovation: 6, ..ns });
        v.push(Buff { great_strides: 5, ..ns });
        v.push(Buff { waste_not: 6, ..ns });
        v.push(Buff { waste_not: 10, ..ns });
    }
    proof {
        assert(v@ =~= spec_gen_succs(*b, sustain));
    }
    v
}

/// How many entries of a mark array are set.
pub open spec fn count_true(s: Seq<bool>) -> int
    decreases s.len(),
{
    if s.len() == 0 {
        0
    } else {
        count_true(s.drop_last()) + if s.last() {
            1int
        } else {
            0int
        }
    }
}

proof fn lemma_count_true_le(s: Seq<bool>)
    ensures
        0 <= count_true(s) <= s.len(),
    decreases s.len(),
{
    if s.len() > 0 {
        lemma_count_true_le(s.drop_last());
    }
}

proof fn lemma_count_true_update(s: Seq<bool>, i: int)
    requires
        0 <= i < s.len(),
        !s[i],
    ensures
        count_true(s.update(i, true)) == count_true(s) + 1,
    decreases s.len(),
{
    let t = s.update(i, true);
    if i == s.len() - 1 {
        assert(t.drop_last() =~= s.drop_last());
    } else {
        assert(t.drop_last() =~= s.drop_last().update(i, true));
        lemma_count_true_update(s.drop_last(), i);
    }
}

/// Every traversal successor of `b` occurs in `buffs`.
pub open spec fn all_succs_in(b: Buff, buffs: Seq<Buff>, sustain: bool) -> bool {
    forall|k: int|
        0 <= k < spec_gen_succs(b, sustain).len() ==> buffs.contains(
            #[trigger] spec_gen_succs(b, sustain)[k],
        )
}

/// The discovery invariant: `marks` flags exactly the addresses of the
/// combinations discovered so far, which are listed in `buffs` — all
/// well-formed, all reachable, with pairwise distinct addresses.
spec fn mark_inv(marks: Seq<bool>, buffs: Seq<Buff>, sustain: bool) -> bool {
    &&& marks.len() == N_ADDR
    &&& count_true(marks) == buffs.len()
    &&& forall|i: int| 0 <= i < buffs.len() ==> buff_wf(#[trigger] buffs[i])
    &&& forall|i: int| 0 <= i < buffs.len() ==> spec_reachable(#[trigger] buffs[i], sustain)
    &&& forall|i: int| 0 <= i < buffs.len() ==> marks[spec_buff_addr(#[trigger] buffs[i])]
    &&& forall|a: int|
        0 <= a < N_ADDR && #[trigger] marks[a] ==> exists|i: int|
            0 <= i < buffs.len() && spec_buff_addr(#[trigger] buffs[i]) == a
    &&& forall|i: int, j: int|
        0 <= i < j < buffs.len() ==> spec_buff_addr(#[trigger] buffs[i]) != spec_buff_addr(
            #[trigger] buffs[j],
        )
}

/// Every pending combination has been discovered.
spec fn stack_ok(buffs: Seq<Buff>, stack: Seq<Buff>) -> bool {
    forall|k: int| 0 <= k < stack.len() ==> buffs.contains(#[trigger] stack[k])
}

/// Every discovered combination is either still pending or has had all its
/// successors discovered.
spec fn pending_ok(buffs: Seq<Buff>, stack: Seq<Buff>, sustain: bool) -> bool {
    forall|i: int|
        0 <= i < buffs.len() ==> stack.contains(#[trigger] buffs[i]) || all_succs_in(
            buffs[i],
            buffs,
            sustain,
        )
}

proof fn lemma_prefix_contains(s1: Seq<Buff>, s2: Seq<Buff>, x: Buff)
    requires
        s1.is_prefix_of(s2),
        s1.contains(x),
    ensures
        s2.contains(x),
{
    let i = choose|i: int| 0 <= i < s1.len() && s1[i] == x;
    assert(s2[i] == x);
}

proof fn lemma_all_succs_in_prefix(b: Buff, s1: Seq<Buff>, s2: Seq<Buff>, sustain: bool)
    requires
        all_succs_in(b, s1, sustain),
        s1.is_prefix_of(s2),
    ensures
        all_succs_in(b, s2, sustain),
{
    assert forall|k: int| 0 <= k < spec_gen_succs(b, sustain).len() implies s2.contains(
        #[trigger] spec_gen_succs(b, sustain)[k],
    ) by {
        lemma_prefix_contains(s1, s2, spec_gen_succs(b, sustain)[k]);
    }
}

/// One discovery step: if `c` is not yet marked, mark its address and add it
/// to the discovered list and the pending stack.
fn visit(
    marks: &mut Vec<bool>,
    buffs: &mut Vec<Buff>,
    stack: &mut Vec<Buff>,
    c: Buff,
    sustain: Ghost<bool>,
)
    requires
        mark_inv(old(marks)@, old(buffs)@, sustain@),
        stack_ok(old(buffs)@, old(stack)@),
        buff_wf(c),
        spec_reachable(c, sustain@),
    ensures
        mark_inv(final(marks)@, final(buffs)@, sustain@),
        stack_ok(final(buffs)@, final(stack)@),
        final(buffs)@.contains(c),
        (final(buffs)@ == old(buffs)@ && final(stack)@ == old(stack)@ && final(marks)@ == old(
            marks,
        )@) || (final(buffs)@ == old(buffs)@.push(c) && final(stack)@ == old(stack)@.push(c)),
{
    let addr = StateSpace::buff_to_addr(&c);
    if !marks[addr] {
        marks.set(addr, true);
        buffs.push(c);
        stack.push(c);
        proof {
            lemma_count_true_update(old(marks)@, addr as int);
            let bs = buffs@;
            let n = bs.len() - 1;
            assert(bs[n] == c);
            assert(old(buffs)@.is_prefix_of(bs));
            // the new element's address was unmarked, so it differs from every
            // earlier address
            assert forall|i: int, j: int| 0 <= i < j < bs.len() implies spec_buff_addr(
                #[trigger] bs[i],
            ) != spec_buff_addr(#[trigger] bs[j]) by {
                if j == n {
                    assert(old(marks)@[spec_buff_addr(bs[i])]);
                }
            }
            assert forall|a: int| 0 <= a < N_ADDR && #[trigger] marks@[a] implies exists|i: int|
                0 <= i < bs.len() && spec_buff_addr(#[trigger] bs[i]) == a by {
                if a == addr {
                    assert(spec_buff_addr(bs[n]) == a);
                } else {
                    assert(old(marks)@[a]);
                    let i = choose|i: int|
                        0 <= i < old(buffs)@.len() && spec_buff_addr(old(buffs)@[i]) == a;
                    assert(spec_buff_addr(bs[i]) == a);
                }
            }
            assert forall|k: int| 0 <= k < stack@.len() implies bs.contains(
                #[trigger] stack@[k],
            ) by {
                if k < old(stack)@.len() {
                    lemma_prefix_contains(old(buffs)@, bs, old(stack)@[k]);
                } else {
                    assert(stack@[k] == c);
                    assert(bs[n] == c);
                }
            }
            assert(bs.contains(c)) by {
                assert(bs[n] == c);
            }
        }
    } else {
        proof {
            let a = spec_buff_addr(c);
            assert(marks@[a]);
            let i = choose|i: int| 0 <= i < buffs@.len() && spec_buff_addr(buffs@[i]) == a;
            lemma_buff_addr_injective(buffs@[i], c);
            assert(buffs@.contains(c));
        }
    }
}

proof fn lemma_count_true_push(s: Seq<bool>, v: bool)
    ensures
        count_true(s.push(v)) == count_true(s) + if v {
            1int
        } else {
            0int
        },
{
    assert(s.push(v).drop_last() =~= s);
}

/// Runs the worklist to exhaustion: pops a pending combination, generates its
/// successors, and discovers each new one, until nothing is pending.
fn travarse_states(
    marks: &mut Vec<bool>,
    buffs: &mut Vec<Buff>,
    stack: &mut Vec<Buff>,
    sustain: bool,
)
    requires
        mark_inv(old(marks)@, old(buffs)@, sustain),
        stack_ok(old(buffs)@, old(stack)@),
        pending_ok(old(buffs)@, old(stack)@, sustain),
    ensures
        mark_inv(final(marks)@, final(buffs)@, sustain),
        final(stack)@.len() == 0,
        pending_ok(final(buffs)@, final(stack)@, sustain),
        old(buffs)@.is_prefix_of(final(buffs)@),
{
    proof {
        lemma_count_true_le(old(marks)@);
    }
    while stack.len() > 0
        invariant
            mark_inv(marks@, buffs@, sustain),
            stack_ok(buffs@, stack@),
            pending_ok(buffs@, stack@, sustain),
            old(buffs)@.is_prefix_of(buffs@),
            buffs@.len() <= N_ADDR,
        decreases 2 * (N_ADDR - buffs@.len()) + stack@.len(),
    {
        let ghost stack0 = stack@;
        let ghost buffs0 = buffs@;
        let b = stack.pop().unwrap();
        proof {
            assert(buffs0.contains(b));
            let bi = choose|i: int| 0 <= i < buffs0.len() && buffs0[i] == b;
            assert(buff_wf(buffs0[bi]));
            assert(spec_reachable(buffs0[bi], sustain));
            assert forall|k: int| 0 <= k < stack@.len() implies buffs@.contains(
                #[trigger] stack@[k],
            ) by {
                assert(stack@[k] == stack0[k]);
            }
        }
        let ghost stack1 = stack@;
        let cands = gen_succs(&b, sustain);
        let mut k: usize = 0;
        while k < cands.len()
            invariant
                mark_inv(marks@, buffs@, sustain),
                stack_ok(buffs@, stack@),
                cands@ == spec_gen_succs(b, sustain),
                buff_wf(b),
                spec_reachable(b, sustain),
                k <= cands@.len(),
                forall|j: int| 0 <= j < k ==> buffs@.contains(#[trigger] cands@[j]),
                buffs0.is_prefix_of(buffs@),
                stack1.is_prefix_of(stack@),
                stack@.len() - stack1.len() == buffs@.len() - buffs0.len(),
                forall|i: int|
                    buffs0.len() <= i < buffs@.len() ==> stack@.contains(#[trigger] buffs@[i]),
                pending_ok(buffs0, stack0, sustain),
            decreases cands@.len() - k,
        {
            let c = cands[k];
            proof {
                lemma_gen_succs_wf(b, sustain);
                lemma_reachable_succs(b, sustain, k as int);
            }
            let ghost bprev = buffs@;
            let ghost sprev = stack@;
            visit(marks, buffs, stack, c, Ghost(sustain));
            proof {
                assert(bprev.is_prefix_of(buffs@));
                assert(sprev.is_prefix_of(stack@));
                assert forall|j: int| 0 <= j < k + 1 implies buffs@.contains(
                    #[trigger] cands@[j],
                ) by {
                    if j < k {
                        lemma_prefix_contains(bprev, buffs@, cands@[j]);
                    }
                }
                assert forall|i: int| buffs0.len() <= i < buffs@.len() implies stack@.contains(
                    #[trigger] buffs@[i],
                ) by {
                    if i < bprev.len() {
                        assert(bprev[i] == buffs@[i]);
                        lemma_prefix_contains(sprev, stack@, buffs@[i]);
                    } else {
                        assert(buffs@ == bprev.push(c) && stack@ == sprev.push(c));
                        assert(buffs@[i] == c);
                        assert(stack@[stack@.len() - 1] == c);
                    }
                }
            }
            k += 1;
        }
        proof {
            assert(all_succs_in(b, buffs@, sustain));
            lemma_count_true_le(marks@);
            assert forall|i: int| 0 <= i < buffs@.len() implies stack@.contains(#[trigger] buffs@[i])
                || all_succs_in(buffs@[i], buffs@, sustain) by {
                if i < buffs0.len() {
                    assert(buffs0[i] == buffs@[i]);
                    if stack0.contains(buffs0[i]) {
                        let kk = choose|kk: int| 0 <= kk < stack0.len() && stack0[kk] == buffs0[i];
                        if kk < stack0.len() - 1 {
                            assert(stack1[kk] == buffs0[i]);
                            lemma_prefix_contains(stack1, stack@, buffs@[i]);
                        } else {
                            assert(buffs@[i] == b);
                            lemma_all_succs_in_prefix(b, buffs@, buffs@, sustain);
                        }
                    } else {
                        assert(all_succs_in(buffs0[i], buffs0, sustain));
                        lemma_all_succs_in_prefix(buffs@[i], buffs0, buffs@, sustain);
                    }
                }
            }
        }
    }
}

/// Induction over the step count: a set that holds the start combination and
/// is closed under the successor rules holds every reachable combination.
proof fn lemma_closed_complete(buffs: Seq<Buff>, sustain: bool, b: Buff, n: nat)
    requires
        buffs.contains(spec_initial_buff()),
        forall|i: int| 0 <= i < buffs.len() ==> all_succs_in(#[trigger] buffs[i], buffs, sustain),
        spec_reach_n(b, n, sustain),
    ensures
        buffs.contains(b),
    decreases n,
{
    if n != 0 {
        let p = choose|p: Buff|
            spec_reach_n(p, (n - 1) as nat, sustain) && spec_gen_succs(p, sustain).contains(b);
        lemma_closed_complete(buffs, sustain, p, (n - 1) as nat);
        let i = choose|i: int| 0 <= i < buffs.len() && buffs[i] == p;
        assert(all_succs_in(buffs[i], buffs, sustain));
        let k = choose|k: int|
            0 <= k < spec_gen_succs(p, sustain).len() && spec_gen_succs(p, sustain)[k] == b;
        assert(buffs.contains(spec_gen_succs(buffs[i], sustain)[k]));
    }
}

/// Enumerates the Reachable Modifier Set: exactly the combinations reachable
/// from the canonical start combination, each listed once.
#[verifier::rlimit(50)]
fn generate_buffs(sustain: bool) -> (buffs: Vec<Buff>)
    ensures
        buffs@.len() <= N_ADDR,
        forall|i: int|
            0 <= i < buffs@.len() ==> buff_wf(#[trigger] buffs@[i]) && spec_reachable(
                buffs@[i],
                sustain,
            ),
        forall|i: int, j: int|
            0 <= i < j < buffs@.len() ==> spec_buff_addr(#[trigger] buffs@[i]) != spec_buff_addr(
                #[trigger] buffs@[j],
            ),
        forall|b: Buff| spec_reachable(b, sustain) <==> buffs@.contains(b),
{
    let mut marks: Vec<bool> = Vec::new();
    while marks.len() < N_ADDR
        invariant
            marks@.len() <= N_ADDR,
            count_true(marks@) == 0,
            forall|a: int| 0 <= a < marks@.len() ==> !(#[trigger] marks@[a]),
        decreases N_ADDR - marks@.len(),
    {
        proof {
            lemma_count_true_push(marks@, false);
        }
        marks.push(false);
    }
    let mut buffs: Vec<Buff> = Vec::new();
    let mut stack: Vec<Buff> = Vec::new();
    proof {
        lemma_initial_reachable(sustain);
    }
    let start = initial_buff_state();
    visit(&mut marks, &mut buffs, &mut stack, start, Ghost(sustain));
    proof {
        assert forall|i: int| 0 <= i < buffs@.len() implies stack@.contains(#[trigger] buffs@[i])
            || all_succs_in(buffs@[i], buffs@, sustain) by {
            assert(buffs@ == Seq::<Buff>::empty().push(start));
            assert(stack@ == Seq::<Buff>::empty().push(start));
            assert(stack@[0] == buffs@[i]);
        }
    }
    travarse_states(&mut marks, &mut buffs, &mut stack, sustain);
    proof {
        lemma_count_true_le(marks@);
        assert(buffs@.contains(spec_initial_buff())) by {
            assert(Seq::<Buff>::empty().push(start).is_prefix_of(buffs@));
            lemma_prefix_contains(Seq::<Buff>::empty().push(start), buffs@, start);
        }
        assert forall|i: int| 0 <= i < buffs@.len() implies all_succs_in(
            #[trigger] buffs@[i],
            buffs@,
            sustain,
        ) by {
            assert(!stack@.contains(buffs@[i]));
        }
        assert forall|b: Buff| spec_reachable(b, sustain) implies buffs@.contains(b) by {
            let n = choose|n: nat| spec_reach_n(b, n, sustain);
            lemma_closed_complete(buffs@, sustain, b, n);
        }
        assert forall|b: Buff| buffs@.contains(b) implies spec_reachable(b, sustain) by {
            let i = choose|i: int| 0 <= i < buffs@.len() && buffs@[i] == b;
            assert(spec_reachable(buffs@[i], sustain));
        }
    }
    buffs
}

/// The state-space mapping for one configuration: the reachable combinations
/// in a dense list, and the direct-addressed table mapping a combination's
/// mixed-radix address back to its dense index.
#[derive(Debug)]
pub struct StateSpace {
    pub max_durability: u8,
    pub max_cp: u16,
    pub buffs: Vec<Buff>,
    pub buff_to_index: Vec<Option<usize>>,
}

impl StateSpace {
    /// The direct-addressed lookup table, as a sequence.
    pub open spec fn spec_index_table(&self) -> Seq<Option<usize>> {
        self.buff_to_index@
    }

    /// Number of table slots per action-point value: one per
    /// (durability bucket, combination) pair.
    pub open spec fn spec_size_cp(&self) -> int {
        ((self.max_durability / 5) as int) * self.buffs@.len()
    }

    /// Total number of table slots.
    pub open spec fn spec_size(&self) -> int {
        (self.max_cp + 1) * self.spec_size_cp()
    }

    /// Well-formedness: the lookup table has one slot per address and is the
    /// exact inverse of the dense list, whose combinations are well-formed
    /// with pairwise distinct addresses; and the table size fits the machine.
    pub open spec fn wf(&self) -> bool {
        &&& self.spec_index_table().len() == N_ADDR
        &&& self.buffs@.len() <= N_ADDR
        &&& forall|i: int| 0 <= i < self.buffs@.len() ==> buff_wf(#[trigger] self.buffs@[i])
        &&& forall|i: int|
            0 <= i < self.buffs@.len() ==> self.spec_index_table()[spec_buff_addr(
                #[trigger] self.buffs@[i],
            )] == Some(i as usize)
        &&& forall|a: int|
            0 <= a < N_ADDR ==> match #[trigger] self.spec_index_table()[a] {
                Some(j) => j < self.buffs@.len() && spec_buff_addr(self.buffs@[j as int]) == a,
                None => true,
            }
        &&& self.spec_size() <= usize::MAX
    }

    /// Whether a combination belongs to the Reachable Modifier Set of this
    /// space.
    pub open spec fn spec_contains_buff(&self, b: Buff) -> bool {
        buff_wf(b) && self.spec_index_table()[spec_buff_addr(b)] is Some
    }

    /// The dense-table slot of a state, or `None` for a state outside the
    /// domain: durability must be a positive multiple of 5 within the
    /// maximum, action points within the maximum, and the combination
    /// reachable.
    pub open spec fn spec_get_index(&self, s: State) -> Option<int> {
        if s.durability == 0 || s.durability % 5 != 0 || s.durability > self.max_durability {
            None
        } else if s.cp > self.max_cp {
            None
        } else if !buff_wf(s.buff) {
            None
        } else {
            match self.spec_index_table()[spec_buff_addr(s.buff)] {
                Some(i) => Some(
                    (s.cp * ((self.max_durability / 5) as int) + (s.durability / 5 - 1))
                        * self.buffs@.len() + i,
                ),
                None => None,
            }
        }
    }

    /// Whether a state lies in the dense table's domain.
    pub open spec fn spec_exists(&self, s: State) -> bool {
        self.spec_get_index(s) is Some
    }

    /// The state stored at slot `k` of the layer for action-point value `cp`.
    pub open spec fn spec_state_at(&self, cp: u16, k: int) -> State {
        State {
            durability: (((k / self.buffs@.len() as int) + 1) * 5) as u8,
            cp,
            buff: self.buffs@[k % self.buffs@.len() as int],
        }
    }

    /// A slot index decomposes below the whole table's size.
    pub proof fn lemma_get_index_bounds(&self, s: State)
        requires
            self.wf(),
            self.spec_get_index(s) is Some,
        ensures
            0 <= self.spec_get_index(s).unwrap(),
            self.spec_get_index(s).unwrap() < self.spec_size(),
            self.spec_get_index(s).unwrap() == s.cp * self.spec_size_cp() + (
            self.spec_get_index(s).unwrap() - s.cp * self.spec_size_cp()),
            0 <= self.spec_get_index(s).unwrap() - s.cp * self.spec_size_cp()
                < self.spec_size_cp(),
    {
        let nd = (self.max_durability / 5) as int;
        let len = self.buffs@.len() as int;
        let i = match self.spec_index_table()[spec_buff_addr(s.buff)] {
            Some(i) => i as int,
            None => 0,
        };
        let db = s.durability / 5 - 1;
        assert(0 <= i < len);
        assert(5 <= s.durability);
        assert(s.durability / 5 >= 1 && s.durability / 5 <= self.max_durability / 5);
        assert(0 <= db < nd);
        assert((s.cp * nd + db) * len + i == s.cp * (nd * len) + (db * len + i)) by (nonlinear_arith);
        assert(0 <= db * len + i < nd * len) by (nonlinear_arith)
            requires
                0 <= db < nd,
                0 <= i < len,
        ;
        assert(s.cp * (nd * len) + (nd * len) <= (self.max_cp + 1) * (nd * len))
            by (nonlinear_arith)
            requires
                0 <= s.cp <= self.max_cp,
                0 <= nd * len,
        ;
        assert(0 <= s.cp * (nd * len)) by (nonlinear_arith)
            requires
                0 <= s.cp,
                0 <= nd * len,
        ;
    }

    /// Builds the state space for one configuration: enumerates the
    /// Reachable Modifier Set and fills the direct-addressed index table.
    pub fn new(max_durability: u8, max_cp: u16, sustain: bool) -> (r: StateSpace)
        requires
            (max_cp + 1) * ((max_durability / 5) as int) * N_ADDR <= usize::MAX,
        ensures
            r.wf(),
            r.max_durability == max_durability,
            r.max_cp == max_cp,
            forall|b: Buff| (#[trigger] r.spec_contains_buff(b)) <==> spec_reachable(b, sustain),
    {
        let buffs = generate_buffs(sustain);

        let mut buff_to_index: Vec<Option<usize>> = Vec::new();
        while buff_to_index.len() < N_ADDR
            invariant
                buff_to_index@.len() <= N_ADDR,
                forall|a: int| 0 <= a < buff_to_index@.len() ==> #[trigger] buff_to_index@[a] is None,
            decreases N_ADDR - buff_to_index@.len(),
        {
            buff_to_index.push(None);
        }

        let mut i: usize = 0;
        while i < buffs.len()
            invariant
                buff_to_index@.len() == N_ADDR,
                i <= buffs@.len(),
                buffs@.len() <= N_ADDR,
                forall|j: int|
                    0 <= j < buffs@.len() ==> buff_wf(#[trigger] buffs@[j]) && spec_reachable(
                        buffs@[j],
                        sustain,
                    ),
                forall|j: int, k: int|
                    0 <= j < k < buffs@.len() ==> spec_buff_addr(#[trigger] buffs@[j])
                        != spec_buff_addr(#[trigger] buffs@[k]),
                forall|b: Buff| spec_reachable(b, sustain) <==> buffs@.contains(b),
                forall|j: int|
                    0 <= j < i ==> buff_to_index@[spec_buff_addr(#[trigger] buffs@[j])] == Some(
                        j as usize,
                    ),
                forall|a: int|
                    0 <= a < N_ADDR ==> match #[trigger] buff_to_index@[a] {
                        Some(j) => j < i && spec_buff_addr(buffs@[j as int]) == a,
                        None => true,
                    },
            decreases buffs@.len() - i,
        {
            let addr = StateSpace::buff_to_addr(&buffs[i]);
            buff_to_index.set(addr, Some(i));
            proof {
                assert forall|j: int| 0 <= j < i + 1 implies buff_to_index@[spec_buff_addr(
                    #[trigger] buffs@[j],
                )] == Some(j as usize) by {
                    if j < i {
                        assert(spec_buff_addr(buffs@[j]) != spec_buff_addr(buffs@[i as int]));
                    }
                }
            }
            i += 1;
        }

        let r = StateSpace { max_durability, max_cp, buffs, buff_to_index };
        proof {
            assert(r.spec_size() <= usize::MAX) by {
                let a = (max_cp + 1) as int;
                let nd = (max_durability / 5) as int;
                let len = r.buffs@.len() as int;
                assert(a * (nd * len) <= (a * nd) * N_ADDR) by (nonlinear_arith)
                    requires
                        0 <= a,
                        0 <= nd,
                        0 <= len <= N_ADDR,
                ;
            }
            assert forall|b: Buff| r.spec_contains_buff(b) implies spec_reachable(b, sustain) by {
                let a = spec_buff_addr(b);
                let j = match r.spec_index_table()[a] {
                    Some(j) => j as int,
                    None => 0,
                };
                lemma_buff_addr_injective(r.buffs@[j], b);
                assert(spec_reachable(r.buffs@[j], sustain));
            }
            assert forall|b: Buff| spec_reachable(b, sustain) implies r.spec_contains_buff(b) by {
                assert(r.buffs@.contains(b));
                let j = choose|j: int| 0 <= j < r.buffs@.len() && r.buffs@[j] == b;
                lemma_reachable_wf(b, sustain);
                assert(r.spec_index_table()[spec_buff_addr(r.buffs@[j])] == Some(j as usize));
            }
        }
        r
    }

    /// An identical copy of this space, sharing nothing.
    pub fn duplicate(&self) -> (r: StateSpace)
        ensures
            r.max_durability == self.max_durability,
            r.max_cp == self.max_cp,
            r.buffs@ == self.buffs@,
            r.spec_index_table() == self.spec_index_table(),
    {
        let mut buffs: Vec<Buff> = Vec::new();
        let mut k: usize = 0;
        while k < self.buffs.len()
            invariant
                k <= self.buffs@.len(),
                buffs@ == self.buffs@.take(k as int),
            decreases self.buffs@.len() - k,
        {
            buffs.push(self.buffs[k]);
            proof {
                assert(buffs@ =~= self.buffs@.take(k + 1));
            }
            k += 1;
        }
        let mut buff_to_index: Vec<Option<usize>> = Vec::new();
        let mut a: usize = 0;
        while a < self.buff_to_index.len()
            invariant
                a <= self.buff_to_index@.len(),
                buff_to_index@ == self.buff_to_index@.take(a as int),
            decreases self.buff_to_index@.len() - a,
        {
            buff_to_index.push(self.buff_to_index[a]);
            proof {
                assert(buff_to_index@ =~= self.buff_to_index@.take(a + 1));
            }
            a += 1;
        }
        proof {
            assert(buffs@ =~= self.buffs@);
            assert(buff_to_index@ =~= self.buff_to_index@);
        }
        StateSpace { max_durability: self.max_durability, max_cp: self.max_cp, buffs, buff_to_index }
    }

    /// Number of table slots per action-point layer.
    pub fn size_cp(&self) -> (r: usize)
        requires
            self.wf(),
        ensures
            r == self.spec_size_cp(),
    {
        let num_durability = (self.max_durability / 5) as usize;
        let num_buff = self.buffs.len();
        proof {
            let a = (self.max_cp + 1) as int;
            assert(num_durability * num_buff <= a * (num_durability * num_buff))
                by (nonlinear_arith)
                requires
                    a >= 1,
                    num_durability * num_buff >= 0,
            ;
        }
        num_durability * num_buff
    }

    /// Total number of table slots.
    pub fn size(&self) -> (r: usize)
        requires
            self.wf(),
        ensures
            r == self.spec_size(),
    {
        let num_cp = self.max_cp as usize + 1;
        num_cp * self.size_cp()
    }

    /// Exec check that a combination's fields lie within the encoding
    /// radixes.
    fn buff_in_bounds(b: &Buff) -> (r: bool)
        ensures
            r == buff_wf(*b),
    {
        b.manipulation < 11 && b.innovation < 7 && b.great_strides < 6 && b.waste_not < 11
            && b.basic_touch < 2 && b.observe < 2 && (b.inner_quiet == 0 || b.inner_quiet
            == START_INNER_QUIET)
    }

    /// The dense-table slot of a state, or `None` when the state is outside
    /// the table's domain.
    pub fn get_index(&self, s: &State) -> (r: Option<usize>)
        requires
            self.wf(),
        ensures
            match r {
                Some(v) => self.spec_get_index(*s) == Some(v as int),
                None => self.spec_get_index(*s) is None,
            },
    {
        if s.durability == 0 || s.durability % 5 != 0 || s.durability > self.max_durability {
            None
        } else if s.cp > self.max_cp {
            None
        } else if !StateSpace::buff_in_bounds(&s.buff) {
            None
        } else {
            match self.buff_to_index[StateSpace::buff_to_addr(&s.buff)] {
                Some(i) => {
                    let cp = s.cp as usize;
                    let durability = (s.durability / 5) as usize - 1;
                    let num_durability = (self.max_durability / 5) as usize;
                    let num_buff = self.buffs.len();
                    proof {
                        self.lemma_get_index_bounds(*s);
                        let cpn = cp as int;
                        let nd = num_durability as int;
                        let db = durability as int;
                        let nb = num_buff as int;
                        assert(self.spec_get_index(*s) == Some((cpn * nd + db) * nb + i));
                        assert(nb >= 1);
                        assert(cpn * nd <= (cpn * nd + db) * nb && (cpn * nd + db) <= (cpn * nd
                            + db) * nb) by (nonlinear_arith)
                            requires
                                cpn >= 0,
                                nd >= 0,
                                db >= 0,
                                nb >= 1,
                        ;
                        assert((cpn * nd + db) * nb + i <= usize::MAX);
                    }
                    Some((cp * num_durability + durability) * num_buff + i)
                },
                None => None,
            }
        }
    }

    /// Decodes a layer slot back into its state: the inverse of
    /// `get_index` within the layer for action-point value `cp`.
    pub fn get_state_by_cp_index(&self, cp: u16, index: usize) -> (r: State)
        requires
            self.wf(),
            cp <= self.max_cp,
            index < self.spec_size_cp(),
        ensures
            r == self.spec_state_at(cp, index as int),
            self.spec_get_index(r) == Some(cp * self.spec_size_cp() + index),
    {
        let num_buff = self.buffs.len();
        let num_durability = (self.max_durability / 5) as usize;
        proof {
            assert(num_buff >= 1) by {
                if num_buff == 0 {
                    assert((num_durability as int) * 0 == 0) by (nonlinear_arith);
                }
            }
            assert((num_durability as int) * (num_buff as int) == (num_buff as int) * (
            num_durability as int)) by (nonlinear_arith);
            vstd::arithmetic::div_mod::lemma_multiply_divide_lt(
                index as int,
                num_buff as int,
                num_durability as int,
            );
        }
        let db = index / num_buff;
        let bi = index % num_buff;
        let durability = ((db + 1) * 5) as u8;
        let buff = self.buffs[bi];
        let r = State { durability, cp, buff };
        proof {
            let nb = num_buff as int;
            let nd = num_durability as int;
            let dbi = db as int;
            vstd::arithmetic::div_mod::lemma_fundamental_div_mod(index as int, nb);
            assert(index == nb * dbi + bi);
            vstd::arithmetic::div_mod::lemma_fundamental_div_mod(self.max_durability as int, 5);
            assert((dbi + 1) * 5 <= nd * 5 <= self.max_durability);
            vstd::arithmetic::div_mod::lemma_mod_multiples_basic(dbi + 1, 5);
            assert(((dbi + 1) * 5) % 5 == 0);
            vstd::arithmetic::div_mod::lemma_div_multiples_vanish(dbi + 1, 5);
            assert((5 * (dbi + 1)) / 5 == dbi + 1);
            assert(r.durability / 5 == dbi + 1);
            assert(self.spec_index_table()[spec_buff_addr(buff)] == Some(bi));
            assert((cp * nd + dbi) * nb + bi == cp * (nd * nb) + (nb * dbi + bi))
                by (nonlinear_arith);
            assert(self.spec_get_index(r) == Some(cp * self.spec_size_cp() + index));
        }
        r
    }
}

/// Two spaces describe the same mapping: same bounds, same dense list, same
/// lookup table.
pub open spec fn same_mapping(a: StateSpace, b: StateSpace) -> bool {
    &&& a.max_durability == b.max_durability
    &&& a.max_cp == b.max_cp
    &&& a.buffs@ == b.buffs@
    &&& a.spec_index_table() == b.spec_index_table()
}

/// Spaces with the same mapping agree on every derived notion.
pub proof fn lemma_same_mapping(a: StateSpace, b: StateSpace)
    requires
        same_mapping(a, b),
    ensures
        a.spec_size_cp() == b.spec_size_cp(),
        a.spec_size() == b.spec_size(),
        a.wf() == b.wf(),
        forall|s: State| #[trigger] a.spec_get_index(s) == b.spec_get_index(s),
        forall|cp: u16, k: int| #[trigger] a.spec_state_at(cp, k) == b.spec_state_at(cp, k),
        forall|x: Buff| #[trigger] a.spec_contains_buff(x) == b.spec_contains_buff(x),
{
}

/// The Reachable Modifier Set is closed under natural decay: decaying any
/// member yields another member.
pub proof fn theorem_reachable_closed_decay(b: Buff, sustain: bool)
    requires
        spec_reachable(b, sustain),
    ensures
        spec_reachable(spec_buff_decay(b), sustain),
{
    lemma_reachable_succs(b, sustain, 0);
}

/// Clearing the `great_strides` timer of a reachable combination yields a
/// reachable combination: the start combination has no timer, decay keeps a
/// cleared timer cleared, and every overwrite of another field commutes with
/// clearing it.
proof fn lemma_reach_n_gs0(b: Buff, n: nat, sustain: bool)
    requires
        spec_reach_n(b, n, sustain),
    ensures
        spec_reachable(Buff { great_strides: 0, ..b }, sustain),
    decreases n,
{
    if n == 0 {
        assert(Buff { great_strides: 0, ..b } == b);
        assert(spec_reach_n(b, 0, sustain));
    } else {
        let p = choose|p: Buff|
            spec_reach_n(p, (n - 1) as nat, sustain) && spec_gen_succs(p, sustain).contains(b);
        lemma_reach_n_gs0(p, (n - 1) as nat, sustain);
        let p0 = Buff { great_strides: 0, ..p };
        let k = choose|k: int|
            0 <= k < spec_gen_succs(p, sustain).len() && spec_gen_succs(p, sustain)[k] == b;
        let b0 = Buff { great_strides: 0, ..b };
        if k == 3 || k == 11 {
            // the overwritten field was `great_strides` itself: clearing it
            // turns the successor into the plain decay of `p0`
            assert(spec_gen_succs(p0, sustain)[0] == b0);
            lemma_reachable_succs(p0, sustain, 0);
        } else {
            assert(spec_gen_succs(p0, sustain)[k] == b0);
            lemma_reachable_succs(p0, sustain, k);
        }
    }
}

pub proof fn theorem_reachable_gs0(b: Buff, sustain: bool)
    requires
        spec_reachable(b, sustain),
    ensures
        spec_reachable(Buff { great_strides: 0, ..b }, sustain),
{
    let n = choose|n: nat| spec_reach_n(b, n, sustain);
    lemma_reach_n_gs0(b, n, sustain);
}

/// The Reachable Modifier Set is closed under every action's modifier side
/// effect: the combination carried by the state an action produces is again
/// a member, from whatever state the action is taken.
pub proof fn theorem_reachable_closed_action(s: State, setting: Setting, a: Action, sustain: bool)
    requires
        spec_reachable(s.buff, sustain),
        a != Action::CannotAction,
    ensures
        spec_reachable(spec_run_action(s, setting, a).0.buff, sustain),
{
    let b = s.buff;
    let ns = spec_buff_decay(b);
    let nb = spec_run_action(s, setting, a).0.buff;
    match a {
        Action::CannotAction => {},
        Action::BasicTouch => {
            lemma_reachable_succs(b, sustain, 6);
            assert(spec_gen_succs(b, sustain)[6] == Buff { basic_touch: 1, ..ns });
            theorem_reachable_gs0(Buff { basic_touch: 1, ..ns }, sustain);
            assert(nb == Buff { great_strides: 0, ..Buff { basic_touch: 1, ..ns } });
        },
        Action::StandardTouch | Action::PrudentTouch | Action::FocusedTouch
            | Action::PreparatoryTouch => {
            lemma_reachable_succs(b, sustain, 0);
            theorem_reachable_gs0(ns, sustain);
            assert(nb == Buff { great_strides: 0, ..ns });
        },
        Action::ByregotsBlessing => {
            lemma_reachable_succs(b, sustain, 8);
            assert(spec_gen_succs(b, sustain)[8] == Buff { inner_quiet: 0, ..ns });
            theorem_reachable_gs0(Buff { inner_quiet: 0, ..ns }, sustain);
            assert(nb == Buff { great_strides: 0, ..Buff { inner_quiet: 0, ..ns } });
        },
        Action::MastersMend => {
            lemma_reachable_succs(b, sustain, 0);
            assert(nb == ns);
        },
        Action::Observe => {
            lemma_reachable_succs(b, sustain, 7);
            assert(nb == spec_gen_succs(b, sustain)[7]);
        },
        Action::WasteNot => {
            lemma_reachable_succs(b, sustain, 4);
            assert(nb == spec_gen_succs(b, sustain)[4]);
        },
        Action::WasteNot2 => {
            lemma_reachable_succs(b, sustain, 5);
            assert(nb == spec_gen_succs(b, sustain)[5]);
        },
        Action::GreatStrides => {
            lemma_reachable_succs(b, sustain, 3);
            assert(nb == spec_gen_succs(b, sustain)[3]);
        },
        Action::Innovation => {
            lemma_reachable_succs(b, sustain, 2);
            assert(nb == spec_gen_succs(b, sustain)[2]);
        },
        Action::Manipulation => {
            lemma_reachable_succs(b, sustain, 1);
            assert(nb == spec_gen_succs(b, sustain)[1]);
        },
    }
}

} // verus!
