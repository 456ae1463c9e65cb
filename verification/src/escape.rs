use vstd::prelude::*;

verus! {

/// The iteration cap of the escape-time loop, which doubles as the largest
/// value an 8-bit color channel can carry.
pub const ITER_CAP: u8 = 255;

/// The iteration count that the escape-time loop yields for a pixel whose
/// per-step escape tests came out as `flags`: one count per leading `false`
/// flag, stopped by the first `true` flag (the orbit magnitude left the
/// threshold) or by the cap of 255, whichever comes first. A pixel whose
/// flags run out early keeps the count gathered so far.
pub open spec fn escape_count_spec(flags: Seq<bool>) -> nat
    decreases flags.len(),
{
    if flags.len() == 0 {
        0
    } else if flags[0] {
        0
    } else {
        let rest = escape_count_spec(flags.subrange(1, flags.len() as int));
        if rest >= 255 {
            255
        } else {
            rest + 1
        }
    }
}

/// The escape time of a pixel: the index of the first `true` escape test,
/// or the number of tests when none of them fires.
pub open spec fn first_escape_at(flags: Seq<bool>) -> nat
    decreases flags.len(),
{
    if flags.len() == 0 {
        0
    } else if flags[0] {
        0
    } else {
        1 + first_escape_at(flags.subrange(1, flags.len() as int))
    }
}

/// The escape count is exactly the escape time, capped at 255.
pub proof fn lemma_escape_count_is_capped_escape_time(flags: Seq<bool>)
    ensures
        escape_count_spec(flags) == if first_escape_at(flags) < 255 {
            first_escape_at(flags)
        } else {
            255 as nat
        },
    decreases flags.len(),
{
    if flags.len() == 0 {
    } else if flags[0] {
    } else {
        lemma_escape_count_is_capped_escape_time(flags.subrange(1, flags.len() as int));
    }
}

/// An escape count never exceeds the cap.
pub proof fn lemma_escape_count_le_cap(flags: Seq<bool>)
    ensures
        escape_count_spec(flags) <= 255,
{
    lemma_escape_count_is_capped_escape_time(flags);
}

/// A run of leading `false` flags forces the count at least that far: a point
/// whose orbit has not escaped after `k` tests has taken at least
/// `min(k, 255)` iterations.
pub proof fn lemma_escape_count_ge(flags: Seq<bool>, k: nat)
    requires
        k <= flags.len(),
        k <= 255,
        forall|j: int| 0 <= j < k ==> !flags[j],
    ensures
        escape_count_spec(flags) >= k,
    decreases k,
{
    if k > 0 {
        let rest = flags.subrange(1, flags.len() as int);
        assert(forall|j: int| 0 <= j < k - 1 ==> !rest[j]);
        lemma_escape_count_ge(rest, (k - 1) as nat);
    }
}

/// A point that never escapes is counted once per test, up to the cap.
pub proof fn lemma_escape_count_no_escape(flags: Seq<bool>)
    requires
        forall|j: int| 0 <= j < flags.len() ==> !flags[j],
    ensures
        escape_count_spec(flags) == if flags.len() < 255 {
            flags.len()
        } else {
            255
        },
    decreases flags.len(),
{
    if flags.len() > 0 {
        let rest = flags.subrange(1, flags.len() as int);
        assert(forall|j: int| 0 <= j < rest.len() ==> !rest[j]);
        lemma_escape_count_no_escape(rest);
    }
}

/// The count of a point whose first escape comes at test `k` (within the
/// cap) is exactly `k`: the escape-time meaning of the count.
pub proof fn lemma_escape_count_first_escape(flags: Seq<bool>, k: nat)
    requires
        k < flags.len(),
        k <= 255,
        flags[k as int],
        forall|j: int| 0 <= j < k ==> !flags[j],
    ensures
        escape_count_spec(flags) == k,
    decreases k,
{
    if k == 0 {
    } else {
        let rest = flags.subrange(1, flags.len() as int);
        assert(rest[k - 1]);
        assert(forall|j: int| 0 <= j < k - 1 ==> !rest[j]);
        lemma_escape_count_first_escape(rest, (k - 1) as nat);
    }
}

/// The decision core of the escape-time loop: it consumes one escape test per
/// step and stops at the first escape or at the iteration cap. The caller
/// performs the orbit arithmetic and hands in only the boolean outcome of
/// each magnitude test, so the count a counter reaches is decided by that
/// sequence of outcomes alone.
pub struct EscapeCounter {
    /// Iterations granted so far; never exceeds 255.
    pub count: u8,
    /// Whether the loop is still running; once false, the count is final.
    pub running: bool,
}

impl EscapeCounter {
    /// A fresh counter: no iterations yet, still running.
    pub fn new() -> (c: Self)
        ensures
            c.count == 0,
            c.running,
    {
        EscapeCounter { count: 0, running: true }
    }

    /// Consume one escape test. The loop goes on — and the count rises by
    /// one — exactly when it was still running, the cap was not reached and
    /// the orbit had not escaped; otherwise the counter stops for good.
    pub fn observe(&mut self, escaped: bool) -> (go: bool)
        ensures
            go == (old(self).running && old(self).count < 255 && !escaped),
            final(self).running == go,
            final(self).count as int == if go {
                old(self).count + 1
            } else {
                old(self).count as int
            },
    {
        if self.running && self.count < 255 && !escaped {
            self.count = self.count + 1;
            true
        } else {
            self.running = false;
            false
        }
    }

    /// The iteration count gathered so far.
    pub fn count(&self) -> (i: u8)
        ensures
            i == self.count,
    {
        self.count
    }
}

/// Run a fresh counter over a whole sequence of escape tests. The result is
/// a pure function of the test outcomes: `escape_count_spec` of them, with
/// no hidden state.
pub fn escape_count_from_flags(flags: &Vec<bool>) -> (i: u8)
    ensures
        i as nat == escape_count_spec(flags@),
{
    let ghost all = flags@;
    let mut c = EscapeCounter::new();
    let mut k: usize = 0;
    while k < flags.len()
        invariant
            flags@ == all,
            k <= all.len(),
            c.running ==> c.count == k && k <= 255 && (forall|j: int| 0 <= j < k ==> !all[j]),
            !c.running ==> c.count as nat == escape_count_spec(all),
        decreases all.len() - k,
    {
        let escaped = flags[k];
        let ghost pre_running = c.running;
        let go = c.observe(escaped);
        proof {
            if pre_running && !go {
                if escaped {
                    lemma_escape_count_first_escape(all, k as nat);
                } else {
                    lemma_escape_count_le_cap(all);
                    lemma_escape_count_ge(all, k as nat);
                }
            }
        }
        k = k + 1;
    }
    proof {
        if c.running {
            lemma_escape_count_no_escape(all);
        }
    }
    c.count()
}

} // verus!
