use vstd::prelude::*;

verus! {

/// What a machine reports after one transition: `true` once it has finished.
pub struct IsDone(pub bool);

/// A machine that is driven forward one transition at a time.
pub trait NextState {
    /// How many more transitions report "not done" before one reports "done".
    spec fn remaining(&self) -> nat;

    /// Performs one transition. It reports "done" exactly when no transitions
    /// were left; a finished machine stays finished.
    fn next_state(&mut self) -> (done: IsDone)
        ensures
            done.0 == (old(self).remaining() == 0),
            final(self).remaining() == if old(self).remaining() == 0 {
                0
            } else {
                (old(self).remaining() - 1) as nat
            },
    ;
}

/// The innermost machine of a nested chain: finished from the start.
#[derive(Copy, Clone)]
pub struct Cap;

impl NextState for Cap {
    open spec fn remaining(&self) -> nat {
        0
    }

    fn next_state(&mut self) -> (done: IsDone) {
        IsDone(true)
    }
}

/// A two-state machine that first drives its inner machine `B` to completion
/// and then moves to its own final state.
#[derive(Copy, Clone)]
pub enum TwoState<B> {
    State1(B),
    State2,
}

impl<B: NextState> TwoState<B> {
    pub fn new(b: B) -> (s: TwoState<B>)
        ensures
            s == TwoState::State1(b),
            s.remaining() == b.remaining() + 1,
    {
        TwoState::State1(b)
    }
}

impl<B: NextState> NextState for TwoState<B> {
    open spec fn remaining(&self) -> nat {
        match self {
            TwoState::State1(b) => b.remaining() + 1,
            TwoState::State2 => 0,
        }
    }

    fn next_state(&mut self) -> (done: IsDone) {
        let transition = match self {
            TwoState::State1(b) => b.next_state().0,
            TwoState::State2 => {
                return IsDone(true);
            },
        };
        if transition {
            *self = TwoState::State2;
        }
        IsDone(false)
    }
}


/// A flat machine with sixteen states, visited in order; the last one is final.
#[derive(Copy, Clone)]
pub enum SixteenState {
    S1,
    S2,
    S3,
    S4,
    S5,
    S6,
    S7,
    S8,
    S9,
    S10,
    S11,
    S12,
    S13,
    S14,
    S15,
    S16,
}

impl SixteenState {
    /// The position of the state, `S1` being 1.
    pub open spec fn ordinal(self) -> nat {
        match self {
            SixteenState::S1 => 1,
            SixteenState::S2 => 2,
            SixteenState::S3 => 3,
            SixteenState::S4 => 4,
            SixteenState::S5 => 5,
            SixteenState::S6 => 6,
            SixteenState::S7 => 7,
            SixteenState::S8 => 8,
            SixteenState::S9 => 9,
            SixteenState::S10 => 10,
            SixteenState::S11 => 11,
            SixteenState::S12 => 12,
            SixteenState::S13 => 13,
            SixteenState::S14 => 14,
            SixteenState::S15 => 15,
            SixteenState::S16 => 16,
        }
    }
}

impl NextState for SixteenState {
    open spec fn remaining(&self) -> nat {
        (16 - self.ordinal()) as nat
    }

    fn next_state(&mut self) -> (done: IsDone) {
        let (s, f) = match *self {
            SixteenState::S1 => (SixteenState::S2, false),
            SixteenState::S2 => (SixteenState::S3, false),
            SixteenState::S3 => (SixteenState::S4, false),
            SixteenState::S4 => (SixteenState::S5, false),
            SixteenState::S5 => (SixteenState::S6, false),
            SixteenState::S6 => (SixteenState::S7, false),
            SixteenState::S7 => (SixteenState::S8, false),
            SixteenState::S8 => (SixteenState::S9, false),
            SixteenState::S9 => (SixteenState::S10, false),
            SixteenState::S10 => (SixteenState::S11, false),
            SixteenState::S11 => (SixteenState::S12, false),
            SixteenState::S12 => (SixteenState::S13, false),
            SixteenState::S13 => (SixteenState::S14, false),
            SixteenState::S14 => (SixteenState::S15, false),
            SixteenState::S15 => (SixteenState::S16, false),
            SixteenState::S16 => (SixteenState::S16, true),
        };
        *self = s;
        IsDone(f)
    }
}

/// Sixteen two-state machines nested around a `Cap`.
pub type NestedSixteen = TwoState<
    TwoState<
        TwoState<
            TwoState<
                TwoState<
                    TwoState<
                        TwoState<
                            TwoState<
                                TwoState<
                                    TwoState<
                                        TwoState<
                                            TwoState<TwoState<TwoState<TwoState<TwoState<Cap>>>>>,
                                        >,
                                    >,
                                >,
                            >,
                        >,
                    >,
                >,
            >,
        >,
    >,
>;

/// Builds sixteen two-state machines nested around a `Cap`.
pub fn nested_sixteen() -> (m: NestedSixteen)
    ensures
        m.remaining() == 16,
{
    TwoState::new(
        TwoState::new(
            TwoState::new(
                TwoState::new(
                    TwoState::new(
                        TwoState::new(
                            TwoState::new(
                                TwoState::new(
                                    TwoState::new(
                                        TwoState::new(
                                            TwoState::new(
                                                TwoState::new(
                                                    TwoState::new(
                                                        TwoState::new(
                                                            TwoState::new(TwoState::new(Cap)),
                                                        ),
                                                    ),
                                                ),
                                            ),
                                        ),
                                    ),
                                ),
                            ),
                        ),
                    ),
                ),
            ),
        ),
    )
}

/// Drives a machine until a transition reports "done"; returns how many
/// transitions were made, the final one included.
pub fn run_until_done<M: NextState>(m: &mut M) -> (calls: u64)
    requires
        old(m).remaining() < u64::MAX,
    ensures
        calls == old(m).remaining() + 1,
        final(m).remaining() == 0,
{
    let mut calls: u64 = 0;
    loop
        invariant_except_break
            calls + m.remaining() == old(m).remaining(),
        invariant
            old(m).remaining() < u64::MAX,
        ensures
            calls == old(m).remaining() + 1,
            m.remaining() == 0,
        decreases m.remaining(),
    {
        let d = m.next_state();
        calls = calls + 1;
        if d.0 {
            break;
        }
    }
    calls
}

/// Makes `calls` transitions and records what each reported: a machine with
/// `r` transitions left reports "not done" exactly `r` times, then "done" on
/// every later call. (`run_until_done` stops at the first "done".)
pub fn transition_reports<M: NextState>(m: &mut M, calls: u64) -> (reports: Vec<bool>)
    ensures
        reports@ == Seq::new(calls as nat, |i: int| i >= old(m).remaining()),
        final(m).remaining() == if old(m).remaining() >= calls {
            (old(m).remaining() - calls) as nat
        } else {
            0
        },
{
    let mut reports: Vec<bool> = Vec::new();
    let mut k: u64 = 0;
    while k < calls
        invariant
            k <= calls,
            reports@ == Seq::new(k as nat, |i: int| i >= old(m).remaining()),
            m.remaining() == if old(m).remaining() >= k {
                (old(m).remaining() - k) as nat
            } else {
                0
            },
        decreases calls - k,
    {
        let d = m.next_state();
        reports.push(d.0);
        k = k + 1;
        assert(reports@ =~= Seq::new(k as nat, |i: int| i >= old(m).remaining()));
    }
    reports
}

/// The two machines the benchmarks start from: the nested chain and the
/// flat machine in its first state.
pub fn bench_setup() -> (machines: (NestedSixteen, SixteenState))
    ensures
        machines.0.remaining() == 16,
        machines.1 == SixteenState::S1,
        machines.1.remaining() == 15,
{
    let nested = nested_sixteen();
    let flat = SixteenState::S1;
    (nested, flat)
}

/// Runs a fresh nested chain to completion; returns the number of transitions.
pub fn bench_sixteen_states_nested() -> (calls: u64)
    ensures
        calls == 17,
{
    let (mut nested, _flat) = bench_setup();
    run_until_done(&mut nested)
}

/// Runs a fresh flat machine to completion; returns the number of transitions.
pub fn bench_sixteen_states_flat() -> (calls: u64)
    ensures
        calls == 16,
{
    let (_nested, mut flat) = bench_setup();
    run_until_done(&mut flat)
}

} // verus!
