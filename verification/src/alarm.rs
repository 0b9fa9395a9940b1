use vstd::prelude::*;

verus! {

/// How many times `v` occurs in `s`.
pub open spec fn spec_count_of(s: Seq<usize>, v: usize) -> int
    decreases s.len(),
{
    if s.len() == 0 {
        0
    } else {
        spec_count_of(s.drop_first(), v) + if s.first() == v {
            1int
        } else {
            0int
        }
    }
}

/// The sleep duration of thread `i`: ten ticks for the first thread, twenty
/// for the second, and so on.
pub open spec fn spec_duration(i: int) -> int {
    (i + 1) * 10
}

/// The product of a wakeup: how many times the woken thread has completed an
/// iteration by position `k`, times its sleep duration. This is also the tick
/// at which the wakeup is due.
pub open spec fn spec_wake_product(s: Seq<usize>, k: int) -> int {
    spec_count_of(s.take(k + 1), s[k]) * spec_duration(s[k] as int)
}

/// Across a wake trace, the products appear in nondescending order.
pub open spec fn products_nondecreasing(s: Seq<usize>) -> bool {
    forall|k1: int, k2: int|
        0 <= k1 <= k2 < s.len() ==> spec_wake_product(s, k1) <= spec_wake_product(s, k2)
}

/// Appending a wakeup extends one thread's count by one and no other's.
proof fn lemma_count_of_push(s: Seq<usize>, v: usize, x: usize)
    ensures
        spec_count_of(s.push(x), v) == spec_count_of(s, v) + if x == v {
            1int
        } else {
            0int
        },
    decreases s.len(),
{
    let t = s.push(x);
    assert(spec_count_of(t, v) == spec_count_of(t.drop_first(), v) + if t.first() == v {
        1int
    } else {
        0int
    });
    if s.len() == 0 {
        assert(t.drop_first() =~= Seq::<usize>::empty());
        assert(t.first() == x);
    } else {
        assert(t.drop_first() =~= s.drop_first().push(x));
        assert(t.first() == s.first());
        lemma_count_of_push(s.drop_first(), v, x);
    }
}

/// Runs the alarm exercise: `thread_cnt` threads each sleep `iterations`
/// times, thread `i` sleeping `(i + 1) * 10` ticks per iteration, and every
/// wakeup is recorded in order. Returns the wake trace: each entry names the
/// thread that woke. Every thread wakes exactly `iterations` times, and the
/// product of each wakeup's iteration count and its thread's duration — the
/// tick the wakeup was due at — never descends along the trace.
pub fn sleep(thread_cnt: usize, iterations: usize) -> (output: Vec<usize>)
    requires
        1 <= thread_cnt <= 1000,
        iterations <= 1000,
    ensures
        forall|k: int| 0 <= k < output@.len() ==> (#[trigger] output@[k]) < thread_cnt,
        forall|i: int|
            0 <= i < thread_cnt ==> #[trigger] spec_count_of(output@, i as usize) == iterations,
        products_nondecreasing(output@),
{
    let mut output: Vec<usize> = Vec::new();
    let mut done: Vec<usize> = Vec::new();
    let mut i: usize = 0;
    while i < thread_cnt
        invariant
            i <= thread_cnt,
            done@.len() == i,
            forall|k: int| 0 <= k < i ==> done@[k] == 0,
        decreases thread_cnt - i,
    {
        done.push(0);
        i = i + 1;
    }
    proof {
        assert((iterations as int) * (thread_cnt as int) * 10 <= 1000 * 1000 * 10)
            by (nonlinear_arith)
            requires
                thread_cnt <= 1000,
                iterations <= 1000,
        ;
    }
    let max_tick = iterations * thread_cnt * 10;
    let mut t: usize = 10;
    while t <= max_tick
        invariant
            1 <= thread_cnt <= 1000,
            iterations <= 1000,
            max_tick == iterations * thread_cnt * 10,
            max_tick <= 10000000,
            10 <= t,
            t % 10 == 0,
            t <= max_tick + 10,
            done@.len() == thread_cnt,
            forall|i: int|
                0 <= i < thread_cnt ==> #[trigger] done@[i] == spec_done_at(
                    (t - 10) as int,
                    i,
                    iterations as int,
                ),
            forall|i: int| 0 <= i < thread_cnt ==> #[trigger] done@[i] <= iterations,
            forall|k: int| 0 <= k < output@.len() ==> (#[trigger] output@[k]) < thread_cnt,
            forall|i: int|
                0 <= i < thread_cnt ==> #[trigger] spec_count_of(output@, i as usize) == done@[i],
            forall|k: int|
                0 <= k < output@.len() ==> 10 <= #[trigger] spec_wake_product(output@, k) <= t
                    - 10,
            forall|k1: int, k2: int|
                0 <= k1 <= k2 < output@.len() ==> spec_wake_product(output@, k1)
                    <= spec_wake_product(output@, k2),
        decreases max_tick + 10 - t,
    {
        let mut i: usize = 0;
        while i < thread_cnt
            invariant
                1 <= thread_cnt <= 1000,
                iterations <= 1000,
                10 <= t <= max_tick,
                t % 10 == 0,
                i <= thread_cnt,
                done@.len() == thread_cnt,
                forall|j: int|
                    0 <= j < i ==> #[trigger] done@[j] == spec_done_at(
                        t as int,
                        j,
                        iterations as int,
                    ),
                forall|j: int|
                    i <= j < thread_cnt ==> #[trigger] done@[j] == spec_done_at(
                        (t - 10) as int,
                        j,
                        iterations as int,
                    ),
                forall|j: int| 0 <= j < thread_cnt ==> #[trigger] done@[j] <= iterations,
                forall|k: int| 0 <= k < output@.len() ==> (#[trigger] output@[k]) < thread_cnt,
                forall|j: int|
                    0 <= j < thread_cnt ==> #[trigger] spec_count_of(output@, j as usize)
                        == done@[j],
                forall|k: int|
                    0 <= k < output@.len() ==> 10 <= #[trigger] spec_wake_product(output@, k)
                        <= t,
                forall|k: int|
                    0 <= k < output@.len() && output@[k] >= i ==> #[trigger] spec_wake_product(
                        output@,
                        k,
                    ) <= t - 10,
                forall|k1: int, k2: int|
                    0 <= k1 <= k2 < output@.len() ==> spec_wake_product(output@, k1)
                        <= spec_wake_product(output@, k2),
            decreases thread_cnt - i,
        {
            let duration = (i + 1) * 10;
            proof {
                assert((i + 1) * 10 <= 1000 * 10) by (nonlinear_arith)
                    requires
                        i < 1000,
                ;
            }
            let due = t % duration == 0 && t / duration <= iterations;
            proof {
                lemma_done_step(t as int, i as int, iterations as int, due);
            }
            if due && done[i] < iterations {
                let ghost before = output@;
                output.push(i);
                let count = done[i];
                done.set(i, count + 1);
                proof {
                    assert forall|j: int| 0 <= j < thread_cnt implies spec_count_of(
                        output@,
                        j as usize,
                    ) == done@[j] by {
                        assert(output@ =~= before.push(i));
                        lemma_count_of_push(before, j as usize, i);
                    }
                    assert(output@ =~= before.push(i));
                    lemma_count_of_push(before, i, i);
                    let newk = before.len() as int;
                    assert forall|k: int| 0 <= k < before.len() implies spec_wake_product(
                        output@,
                        k,
                    ) == spec_wake_product(before, k) by {
                        assert(output@.take(k + 1) =~= before.take(k + 1));
                        assert(output@[k] == before[k]);
                    }
                    assert(output@.take(newk + 1) =~= output@);
                    assert(spec_wake_product(output@, newk) == (done@[i as int]) * spec_duration(
                        i as int,
                    ));
                    lemma_due_product(t as int, i as int, count as int);
                    assert(spec_wake_product(output@, newk) == t);
                    assert forall|k: int|
                        0 <= k < output@.len() implies 10 <= #[trigger] spec_wake_product(
                        output@,
                        k,
                    ) <= t by {
                        if k < newk {
                            assert(spec_wake_product(output@, k) == spec_wake_product(before, k));
                            assert(10 <= spec_wake_product(before, k) <= t);
                        } else {
                            assert(k == newk);
                        }
                    }
                    assert forall|k: int|
                        0 <= k < output@.len() && output@[k] >= i + 1 implies
                        #[trigger] spec_wake_product(output@, k) <= t - 10 by {
                        if k < newk {
                            assert(output@[k] == before[k]);
                            assert(spec_wake_product(output@, k) == spec_wake_product(before, k));
                            assert(before[k] >= i);
                            assert(spec_wake_product(before, k) <= t - 10);
                        } else {
                            assert(output@[k] == i);
                        }
                    }
                    assert forall|k1: int, k2: int|
                        0 <= k1 <= k2 < output@.len() implies spec_wake_product(output@, k1)
                        <= spec_wake_product(output@, k2) by {
                        if k2 < newk {
                            assert(spec_wake_product(output@, k1) == spec_wake_product(
                                before,
                                k1,
                            ));
                            assert(spec_wake_product(output@, k2) == spec_wake_product(
                                before,
                                k2,
                            ));
                            assert(spec_wake_product(before, k1) <= spec_wake_product(before, k2));
                        } else {
                            assert(k2 == newk);
                            assert(spec_wake_product(output@, k2) == t);
                            assert(10 <= spec_wake_product(output@, k1) <= t);
                        }
                    }
                }
            }
            i = i + 1;
        }
        t = t + 10;
    }
    proof {
        assert forall|i: int| 0 <= i < thread_cnt implies #[trigger] spec_count_of(
            output@,
            i as usize,
        ) == iterations by {
            lemma_done_final(
                (t - 10) as int,
                i,
                iterations as int,
                thread_cnt as int,
            );
        }
    }
    output
}

/// How many wakeups thread `i` has completed once every due tick up to `t`
/// has been processed: the number of whole durations in `t`, capped at the
/// iteration count.
pub open spec fn spec_done_at(t: int, i: int, iterations: int) -> int {
    let q = t / spec_duration(i);
    if q <= iterations {
        q
    } else {
        iterations
    }
}

/// Stepping the clock by one grain moves a thread's completed count as its
/// due times dictate.
proof fn lemma_done_step(t: int, i: int, iterations: int, due: bool)
    requires
        10 <= t,
        t % 10 == 0,
        0 <= i,
        0 <= iterations,
        due == (t % spec_duration(i) == 0 && t / spec_duration(i) <= iterations),
    ensures
        due && spec_done_at(t - 10, i, iterations) < iterations ==> spec_done_at(t, i, iterations)
            == spec_done_at(t - 10, i, iterations) + 1,
        due ==> spec_done_at(t - 10, i, iterations) < iterations,
        !due ==> spec_done_at(t, i, iterations) == spec_done_at(t - 10, i, iterations),
{
    let d = spec_duration(i);
    assert(d >= 10) by (nonlinear_arith)
        requires
            i >= 0,
            d == (i + 1) * 10,
    ;
    if t % d == 0 {
        assert((t - 10) / d == t / d - 1) by (nonlinear_arith)
            requires
                t % d == 0,
                10 <= d,
                t >= 10,
        ;
    } else {
        assert(d % 10 == 0) by (nonlinear_arith)
            requires
                d == (i + 1) * 10,
                i >= 0,
        ;
        let q = t / d;
        let r = t % d;
        assert(t == q * d + r && 0 <= r < d && q >= 0) by (nonlinear_arith)
            requires
                d >= 10,
                t >= 10,
                q == t / d,
                r == t % d,
        ;
        let dq = d / 10;
        let tq = t / 10;
        assert(d == 10 * dq && t == 10 * tq) by (nonlinear_arith)
            requires
                t % 10 == 0,
                d % 10 == 0,
                dq == d / 10,
                tq == t / 10,
                t >= 10,
                d >= 10,
        ;
        assert(r == 10 * (tq - q * dq)) by (nonlinear_arith)
            requires
                r == t - q * d,
                d == 10 * dq,
                t == 10 * tq,
        ;
        assert(r % 10 == 0) by (nonlinear_arith)
            requires
                r == 10 * (tq - q * dq),
        ;
        assert(r >= 10) by (nonlinear_arith)
            requires
                r != 0,
                r % 10 == 0,
                r >= 0,
        ;
        assert((t - 10) / d == q) by (nonlinear_arith)
            requires
                t - 10 == q * d + (r - 10),
                0 <= r - 10 < d,
                q >= 0,
                d >= 10,
        ;
    }
}

/// A due wakeup's product is exactly the tick it is due at.
proof fn lemma_due_product(t: int, i: int, count: int)
    requires
        t % spec_duration(i) == 0,
        0 <= i,
        10 <= t,
        count + 1 == t / spec_duration(i),
    ensures
        (count + 1) * spec_duration(i) == t,
{
    let d = spec_duration(i);
    assert(d >= 10) by (nonlinear_arith)
        requires
            i >= 0,
            d == (i + 1) * 10,
    ;
    assert((t / d) * d == t) by (nonlinear_arith)
        requires
            t % d == 0,
            d >= 10,
    ;
}

/// Once the clock has passed every thread's last due tick, every thread has
/// completed all its iterations.
proof fn lemma_done_final(t: int, i: int, iterations: int, thread_cnt: int)
    requires
        0 <= i < thread_cnt,
        0 <= iterations,
        t >= iterations * thread_cnt * 10,
    ensures
        spec_done_at(t, i, iterations) == iterations,
{
    let d = spec_duration(i);
    assert(iterations * d <= iterations * thread_cnt * 10) by (nonlinear_arith)
        requires
            0 <= i < thread_cnt,
            0 <= iterations,
            d == (i + 1) * 10,
    ;
    assert(d >= 10) by (nonlinear_arith)
        requires
            i >= 0,
            d == (i + 1) * 10,
    ;
    assert(t / d >= iterations) by (nonlinear_arith)
        requires
            t >= iterations * d,
            d >= 10,
            0 <= iterations,
    ;
}

} // verus!
