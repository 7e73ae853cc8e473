use rand::rngs::SmallRng;
use rand::seq::SliceRandom;
use vstd::prelude::*;

verus! {

/// The small, fast pseudo-random generator of `rand`; opaque here.
#[verifier::external_type_specification]
#[verifier::external_body]
pub struct ExSmallRng(SmallRng);

/// Calls `rand::seq::SliceRandom::shuffle` on the values. The crate's
/// source shuffles in place by swapping elements (Fisher-Yates), so the
/// values that come out are those that went in, in some order: the same
/// multiset. Which order comes out depends on the generator's state and is
/// left unsaid, as is the generator's state afterwards.
#[verifier::external_body]
fn shuffle_values(values: &mut Vec<u16>, rng: &mut SmallRng)
    ensures
        final(values)@.len() == old(values)@.len(),
        final(values)@.to_multiset() == old(values)@.to_multiset(),
{
    values.as_mut_slice().shuffle(rng);
}

/// The ports `low, low + 1, ..., low + count - 1`, in increasing order.
pub open spec fn port_range(low: int, count: nat) -> Seq<u16> {
    Seq::new(count, |i: int| (low + i) as u16)
}

/// Hands out the ports of an inclusive range in rounds: at the start of
/// each round the ports are shuffled, and the round then walks through
/// them, so that every port is handed out exactly once per round.
pub struct ShufflingRand {
    range_values: Vec<u16>,
    len: usize,
    step: usize,
    rng: SmallRng,
    low: Ghost<int>,
}

impl ShufflingRand {
    /// The lowest port of the range.
    pub closed spec fn low(&self) -> int {
        self.low@
    }

    /// How many ports the range holds.
    pub closed spec fn count(&self) -> nat {
        self.len as nat
    }

    /// The order in which the current round hands the ports out.
    pub closed spec fn order(&self) -> Seq<u16> {
        self.range_values@
    }

    /// How many ports of the current round have been handed out.
    pub closed spec fn step(&self) -> nat {
        self.step as nat
    }

    /// The ports of the current round are exactly those of the range.
    pub closed spec fn wf(&self) -> bool {
        &&& 1 <= self.len
        &&& self.range_values@.len() == self.len
        &&& self.step < self.len
        &&& 0 <= self.low@
        &&& self.low@ + self.len <= u16::MAX + 1
        &&& self.range_values@.to_multiset() == port_range(self.low@, self.len as nat).to_multiset()
    }

    /// One call of `next` took `pre` to `post` and returned `r`.
    pub open spec fn next_step(pre: ShufflingRand, post: ShufflingRand, r: u16) -> bool {
        &&& post.low() == pre.low()
        &&& post.count() == pre.count()
        &&& (pre.step() != 0 ==> post.order() == pre.order())
        &&& (pre.step() == 0 ==> post.order().to_multiset() == pre.order().to_multiset())
        &&& post.step() == (pre.step() + 1) % pre.count()
        &&& r == post.order()[pre.step() as int]
    }

    /// The ports `min..=max`, a round starting. The generator `rng` decides
    /// the order of each round.
    pub fn new(min: u16, max: u16, rng: SmallRng) -> (r: ShufflingRand)
        requires
            min <= max,
        ensures
            r.wf(),
            r.low() == min,
            r.count() == max - min + 1,
            r.step() == 0,
            r.order() == port_range(min as int, (max - min + 1) as nat),
    {
        let mut range_values: Vec<u16> = Vec::new();
        let mut p: u32 = min as u32;
        while p <= max as u32
            invariant
                min <= p <= max as u32 + 1,
                range_values@ == port_range(min as int, (p - min) as nat),
            decreases max as u32 + 1 - p,
        {
            range_values.push(p as u16);
            assert(range_values@ =~= port_range(min as int, (p - min + 1) as nat));
            p = p + 1;
        }
        let len: usize = (max - min) as usize + 1;
        ShufflingRand { range_values, len, step: 0, rng, low: Ghost(min as int) }
    }

    /// The next port. A round starts by shuffling the ports.
    pub fn next(&mut self) -> (r: u16)
        requires
            old(self).wf(),
        ensures
            final(self).wf(),
            Self::next_step(*old(self), *final(self), r),
            old(self).low() <= r < old(self).low() + old(self).count(),
    {
        if self.step == 0 {
            shuffle_values(&mut self.range_values, &mut self.rng);
        }
        let r = self.range_values[self.step];
        proof {
            let s = self.range_values@;
            let range = port_range(self.low@, self.len as nat);
            broadcast use vstd::seq_lib::group_to_multiset_ensures;
            assert(s.contains(r));
            assert(s.to_multiset().count(r) > 0);
            assert(range.to_multiset().count(r) > 0);
            assert(range.contains(r));
            let j = choose|j: int| 0 <= j < range.len() && range[j] == r;
            assert(range[j] == (self.low@ + j) as u16);
        }
        self.step = (self.step + 1) % self.len;
        r
    }
}

/// Over one round, that is `count` calls of `next` from the start of a
/// round, the ports handed out are exactly those of the range, each once.
pub proof fn lemma_round_hands_out_each_port_once(states: Seq<ShufflingRand>, outs: Seq<u16>)
    requires
        states.len() == outs.len() + 1,
        outs.len() == states[0].count(),
        states[0].step() == 0,
        forall|i: int| 0 <= i < states.len() ==> (#[trigger] states[i]).wf(),
        forall|i: int|
            0 <= i < outs.len() ==> ShufflingRand::next_step(
                #[trigger] states[i],
                states[i + 1],
                outs[i],
            ),
    ensures
        outs.to_multiset() == port_range(states[0].low(), states[0].count()).to_multiset(),
        forall|p: u16|
            states[0].low() <= p < states[0].low() + states[0].count() ==> #[trigger] outs.to_multiset().count(p) == 1,
{
    let n = outs.len();
    let low = states[0].low();
    // Within the round the step counts the calls and the order stays put.
    assert(outs =~= states[1].order()) by {
        assert forall|i: int| 0 <= i < n implies outs[i] == states[1].order()[i] by {
            assert(ShufflingRand::next_step(states[i], states[i + 1], outs[i]));
            lemma_round_prefix(states, outs, i + 1);
            if i > 0 {
                lemma_round_prefix(states, outs, i);
            }
        }
    }
    lemma_round_prefix(states, outs, 1);
    let range = port_range(low, n);
    assert(range.no_duplicates());
    range.lemma_multiset_has_no_duplicates();
    assert forall|p: u16| low <= p < low + n implies #[trigger] outs.to_multiset().count(p) == 1 by {
        broadcast use vstd::seq_lib::group_to_multiset_ensures;
        assert(range[p - low] == p);
        assert(range.contains(p));
    }
}

proof fn lemma_round_prefix(states: Seq<ShufflingRand>, outs: Seq<u16>, i: int)
    requires
        states.len() == outs.len() + 1,
        outs.len() == states[0].count(),
        states[0].step() == 0,
        forall|k: int| 0 <= k < states.len() ==> (#[trigger] states[k]).wf(),
        forall|k: int|
            0 <= k < outs.len() ==> ShufflingRand::next_step(
                #[trigger] states[k],
                states[k + 1],
                outs[k],
            ),
        1 <= i <= outs.len(),
    ensures
        i < outs.len() ==> states[i].step() == i,
        states[i].order() == states[1].order(),
        states[i].low() == states[0].low(),
        states[i].count() == states[0].count(),
    decreases i,
{
    assert(ShufflingRand::next_step(states[i - 1], states[i], outs[i - 1]));
    if i > 1 {
        lemma_round_prefix(states, outs, i - 1);
        assert(states[i - 1].step() == i - 1);
    }
    if i < outs.len() {
        vstd::arithmetic::div_mod::lemma_small_mod(i as nat, states[0].count());
    }
}

/// Over any run of calls of `next` from the start of a round, the step
/// counts the calls modulo the number of ports, and the range stays.
proof fn lemma_steps_count_calls(states: Seq<ShufflingRand>, outs: Seq<u16>, i: int)
    requires
        states.len() == outs.len() + 1,
        states[0].step() == 0,
        forall|k: int| 0 <= k < states.len() ==> (#[trigger] states[k]).wf(),
        forall|k: int|
            0 <= k < outs.len() ==> ShufflingRand::next_step(
                #[trigger] states[k],
                states[k + 1],
                outs[k],
            ),
        0 <= i < states.len(),
    ensures
        states[i].step() == i % (states[0].count() as int),
        states[i].low() == states[0].low(),
        states[i].count() == states[0].count(),
    decreases i,
{
    let n = states[0].count() as int;
    assert(states[0].wf());
    if i == 0 {
        vstd::arithmetic::div_mod::lemma_small_mod(0, n as nat);
    } else {
        lemma_steps_count_calls(states, outs, i - 1);
        assert(ShufflingRand::next_step(states[i - 1], states[i], outs[i - 1]));
        vstd::arithmetic::div_mod::lemma_add_mod_noop(i - 1, 1, n);
        vstd::arithmetic::div_mod::lemma_mod_twice(i - 1, n);
        if n == 1 {
            vstd::arithmetic::div_mod::lemma_mod_pos_bound(i, 1);
            vstd::arithmetic::div_mod::lemma_mod_pos_bound(1, 1);
        } else {
            vstd::arithmetic::div_mod::lemma_small_mod(1, n as nat);
        }
        vstd::arithmetic::div_mod::lemma_mod_pos_bound(i - 1, n);
        vstd::arithmetic::div_mod::lemma_small_mod(((i - 1) % n) as nat, n as nat);
    }
}

/// Every round is a permutation of the range: over any run of calls of
/// `next` from the start of a round, with `n` ports, the calls
/// `k*n + 1 ..= k*n + n` hand out each port exactly once, and every `n`-th
/// call starts a new round.
pub proof fn lemma_every_round_hands_out_each_port_once(
    states: Seq<ShufflingRand>,
    outs: Seq<u16>,
    k: int,
)
    requires
        states.len() == outs.len() + 1,
        states[0].step() == 0,
        forall|i: int| 0 <= i < states.len() ==> (#[trigger] states[i]).wf(),
        forall|i: int|
            0 <= i < outs.len() ==> ShufflingRand::next_step(
                #[trigger] states[i],
                states[i + 1],
                outs[i],
            ),
        0 <= k,
        k * states[0].count() + states[0].count() <= outs.len(),
    ensures
        states[k * states[0].count()].step() == 0,
        outs.subrange(k * states[0].count(), k * states[0].count() + states[0].count()).to_multiset()
            == port_range(states[0].low(), states[0].count()).to_multiset(),
        forall|p: u16|
            states[0].low() <= p < states[0].low() + states[0].count() ==> #[trigger] outs.subrange(
                k * states[0].count(),
                k * states[0].count() + states[0].count(),
            ).to_multiset().count(p) == 1,
{
    let n = states[0].count() as int;
    assert(states[0].wf());
    let start = k * n;
    assert(0 <= k * n) by (nonlinear_arith)
        requires
            0 <= k,
            0 <= n,
    ;
    lemma_steps_count_calls(states, outs, start);
    vstd::arithmetic::div_mod::lemma_mod_multiples_basic(k, n);
    let st = states.subrange(start, start + n + 1);
    let os = outs.subrange(start, start + n);
    assert forall|i: int| 0 <= i < st.len() implies (#[trigger] st[i]).wf() by {
        assert(st[i] == states[start + i]);
    }
    assert forall|i: int| 0 <= i < os.len() implies ShufflingRand::next_step(
        #[trigger] st[i],
        st[i + 1],
        os[i],
    ) by {
        assert(st[i] == states[start + i]);
        assert(st[i + 1] == states[start + i + 1]);
        assert(os[i] == outs[start + i]);
        assert(ShufflingRand::next_step(states[start + i], states[start + i + 1], outs[start + i]));
    }
    assert(st[0] == states[start]);
    lemma_round_hands_out_each_port_once(st, os);
}

} // verus!
