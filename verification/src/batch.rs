use vstd::prelude::*;

verus! {

/// One successful probe: its target and the optional annotation.
pub type Success = (Vec<u8>, Option<Vec<u8>>);

/// The mathematical value of an optional annotation.
pub open spec fn note_view(n: Option<Vec<u8>>) -> Option<Seq<u8>> {
    match n {
        Some(h) => Some(h@),
        None => None,
    }
}

/// The mathematical value of one success.
pub open spec fn success_view(s: Success) -> (Seq<u8>, Option<Seq<u8>>) {
    (s.0@, note_view(s.1))
}

/// The mathematical value of a list of targets.
pub open spec fn targets_view(ts: Seq<Vec<u8>>) -> Seq<Seq<u8>> {
    Seq::new(ts.len(), |i: int| ts[i]@)
}

/// The mathematical value of a stub table.
pub open spec fn table_view(t: Seq<(Vec<u8>, Option<Vec<u8>>)>) -> Seq<(Seq<u8>, Option<Seq<u8>>)> {
    Seq::new(t.len(), |i: int| (t[i].0@, note_view(t[i].1)))
}

/// A bounded batch: a fixed worker limit, the number of probes running at
/// this instant, the targets still queued, and the successes delivered so
/// far.  The driver submits targets, hands them to workers one slot at a
/// time, and every finished success is delivered to the collection exactly
/// once.
pub struct Batch {
    pub limit: usize,
    pub running: usize,
    pub pending: Vec<Vec<u8>>,
    pub collected: Vec<Success>,
}

impl Batch {
    /// The pool never holds more running probes than its limit.
    pub open spec fn wf(&self) -> bool {
        1 <= self.limit && self.running <= self.limit
    }

    pub fn new(limit: usize) -> (b: Batch)
        requires
            1 <= limit,
        ensures
            b.wf(),
            b.limit == limit,
            b.running == 0,
            b.pending@.len() == 0,
            b.collected@.len() == 0,
    {
        Batch { limit, running: 0, pending: Vec::new(), collected: Vec::new() }
    }

    /// Queue one target for the run.
    pub fn submit(&mut self, t: Vec<u8>)
        requires
            old(self).wf(),
        ensures
            final(self).wf(),
            final(self).pending@ == old(self).pending@.push(t),
            final(self).running == old(self).running,
            final(self).collected == old(self).collected,
            final(self).limit == old(self).limit,
    {
        self.pending.push(t);
    }

    /// Hand the oldest queued target to a worker, if a slot is free and
    /// anything is queued; a full pool hands out nothing.
    pub fn start(&mut self) -> (r: Option<Vec<u8>>)
        requires
            old(self).wf(),
        ensures
            final(self).wf(),
            r is Some <==> (old(self).running < old(self).limit && old(self).pending@.len() > 0),
            r matches Some(t) ==> t == old(self).pending@[0] && final(self).pending@ == old(
                self,
            ).pending@.subrange(1, old(self).pending@.len() as int) && final(self).running == old(
                self,
            ).running + 1,
            r is None ==> final(self).pending@ == old(self).pending@ && final(self).running == old(
                self,
            ).running,
            final(self).collected == old(self).collected,
            final(self).limit == old(self).limit,
    {
        if self.running < self.limit && self.pending.len() > 0 {
            let t = self.pending.remove(0);
            self.running = self.running + 1;
            proof {
                assert(old(self).pending@.remove(0) =~= old(self).pending@.subrange(
                    1,
                    old(self).pending@.len() as int,
                ));
            }
            Some(t)
        } else {
            None
        }
    }

    /// A worker reports one finished probe.  A success is appended to the
    /// collection exactly once; a failure leaves it untouched.
    pub fn finish(&mut self, s: Option<Success>)
        requires
            old(self).wf(),
            old(self).running >= 1,
        ensures
            final(self).wf(),
            final(self).running == old(self).running - 1,
            (match s {
                Some(x) => final(self).collected@ == old(self).collected@.push(x),
                None => final(self).collected@ == old(self).collected@,
            }),
            final(self).pending@ == old(self).pending@,
            final(self).limit == old(self).limit,
    {
        self.running = self.running - 1;
        if let Some(x) = s {
            self.collected.push(x);
        }
    }

    /// The join barrier: true exactly when nothing is queued and nothing is
    /// running, so the collection is complete for what was submitted.
    pub fn idle(&self) -> (r: bool)
        ensures
            r == (self.running == 0 && self.pending@.len() == 0),
    {
        self.running == 0 && self.pending.len() == 0
    }
}

/// Law: at no instant does a well-formed batch run more probes than its
/// limit; every operation keeps it well-formed.
pub proof fn lemma_bounded_concurrency(b: &Batch)
    requires
        b.wf(),
    ensures
        b.running <= b.limit,
{
}

/// The first table entry for `t`, if any: a deterministic stub probe given
/// as a table from target to outcome.
pub open spec fn stub_lookup(table: Seq<(Seq<u8>, Option<Seq<u8>>)>, t: Seq<u8>) -> Option<
    Option<Seq<u8>>,
>
    decreases table.len(),
{
    if table.len() == 0 {
        None
    } else if table[0].0 == t {
        Some(table[0].1)
    } else {
        stub_lookup(table.drop_first(), t)
    }
}

/// The successes one full run over `targets` delivers, in submission order:
/// one entry for each submitted target the stub succeeds on, none else.
pub open spec fn spec_run(
    targets: Seq<Seq<u8>>,
    table: Seq<(Seq<u8>, Option<Seq<u8>>)>,
) -> Seq<(Seq<u8>, Option<Seq<u8>>)>
    decreases targets.len(),
{
    if targets.len() == 0 {
        Seq::empty()
    } else {
        let rest = spec_run(targets.drop_last(), table);
        match stub_lookup(table, targets.last()) {
            Some(note) => rest.push((targets.last(), note)),
            None => rest,
        }
    }
}

/// Copy a byte string.
fn copy_bytes(s: &Vec<u8>) -> (r: Vec<u8>)
    ensures
        r@ == s@,
{
    let mut r: Vec<u8> = Vec::new();
    let mut k: usize = 0;
    while k < s.len()
        invariant
            k <= s@.len(),
            r@ == s@.subrange(0, k as int),
        decreases s@.len() - k,
    {
        r.push(s[k]);
        proof {
            assert(s@.subrange(0, k as int).push(s@[k as int]) =~= s@.subrange(0, k + 1));
        }
        k = k + 1;
    }
    proof {
        assert(s@.subrange(0, s@.len() as int) =~= s@);
    }
    r
}

/// Ask the stub table about one target: the first matching entry decides.
fn stub_probe(table: &Vec<(Vec<u8>, Option<Vec<u8>>)>, t: &Vec<u8>) -> (r: Option<Option<Vec<u8>>>)
    ensures
        (match r {
            Some(note) => stub_lookup(table_view(table@), t@) == Some(note_view(note)),
            None => stub_lookup(table_view(table@), t@) is None,
        }),
{
    let ghost dv = table_view(table@);
    let mut k: usize = 0;
    proof {
        assert(dv.skip(0) =~= dv);
    }
    while k < table.len()
        invariant
            k <= table@.len(),
            dv == table_view(table@),
            stub_lookup(dv, t@) == stub_lookup(dv.skip(k as int), t@),
        decreases table@.len() - k,
    {
        proof {
            assert(dv.skip(k as int)[0] == dv[k as int]);
            assert(dv[k as int] == (table@[k as int].0@, note_view(table@[k as int].1)));
            assert(dv.skip(k as int).drop_first() =~= dv.skip(k as int + 1));
        }
        if crate::probe::bytes_eq(table[k].0.as_slice(), t.as_slice()) {
            assert(stub_lookup(dv, t@) == Some(dv[k as int].1));
            let note = match &table[k].1 {
                Some(h) => Some(copy_bytes(h)),
                None => None,
            };
            assert(note_view(note) == note_view(table@[k as int].1));
            return Some(note);
        }
        assert(dv[k as int].0 != t@);
        assert(stub_lookup(dv.skip(k as int), t@) == stub_lookup(dv.skip(k as int + 1), t@));
        k = k + 1;
    }
    proof {
        assert(dv.skip(table@.len() as int).len() == 0);
    }
    None
}

/// One full, deterministic reference run of the batch engine: every target
/// is submitted, handed to a worker, probed against the stub, and every
/// success is delivered to the collection before the run returns.
pub fn run_batch(
    targets: &Vec<Vec<u8>>,
    table: &Vec<(Vec<u8>, Option<Vec<u8>>)>,
    limit: usize,
) -> (r: Vec<Success>)
    requires
        1 <= limit,
    ensures
        r@.len() == spec_run(targets_view(targets@), table_view(table@)).len(),
        forall|i: int|
            0 <= i < r@.len() ==> success_view(#[trigger] r@[i]) == spec_run(
                targets_view(targets@),
                table_view(table@),
            )[i],
{
    let ghost all = targets_view(targets@);
    let ghost tv = table_view(table@);
    let mut b = Batch::new(limit);
    let mut k: usize = 0;
    while k < targets.len()
        invariant
            1 <= limit,
            k <= targets@.len(),
            all == targets_view(targets@),
            b.wf(),
            b.limit == limit,
            b.running == 0,
            b.collected@.len() == 0,
            b.pending@.len() == k,
            forall|i: int| 0 <= i < k ==> (#[trigger] b.pending@[i])@ == all[i],
        decreases targets@.len() - k,
    {
        let t = copy_bytes(&targets[k]);
        b.submit(t);
        k = k + 1;
    }
    let ghost n = all.len();
    let mut done: usize = 0;
    while done < targets.len()
        invariant
            1 <= limit,
            done <= targets@.len(),
            all == targets_view(targets@),
            tv == table_view(table@),
            n == all.len(),
            b.wf(),
            b.limit == limit,
            b.running == 0,
            b.pending@.len() == n - done,
            forall|i: int|
                0 <= i < b.pending@.len() ==> (#[trigger] b.pending@[i])@ == all[done + i],
            b.collected@.len() == spec_run(all.take(done as int), tv).len(),
            forall|i: int|
                0 <= i < b.collected@.len() ==> success_view(#[trigger] b.collected@[i])
                    == spec_run(all.take(done as int), tv)[i],
        decreases targets@.len() - done,
    {
        let ghost p0 = b.pending@;
        let t = match b.start() {
            Some(t) => t,
            None => {
                proof {
                    assert(false);
                }
                return b.collected;
            },
        };
        proof {
            assert(t@ == p0[0]@);
            assert(t@ == all[done as int]);
            assert forall|i: int| 0 <= i < b.pending@.len() implies (#[trigger] b.pending@[i])@
                == all[done + 1 + i] by {
                assert(b.pending@[i] == p0[i + 1]);
            }
        }
        let outcome = match stub_probe(table, &t) {
            Some(note) => Some((t, note)),
            None => None,
        };
        b.finish(outcome);
        proof {
            let step = all.take(done as int + 1);
            assert(step.drop_last() =~= all.take(done as int));
            assert(step.last() == all[done as int]);
        }
        done = done + 1;
    }
    proof {
        assert(all.take(targets@.len() as int) =~= all);
    }
    b.collected
}

/// Law: the engine is deterministic — two full runs over the same targets
/// and the same stub deliver the same successes, hence the same set.
pub proof fn lemma_run_idempotent(
    targets: Seq<Seq<u8>>,
    table: Seq<(Seq<u8>, Option<Seq<u8>>)>,
    r1: Seq<(Seq<u8>, Option<Seq<u8>>)>,
    r2: Seq<(Seq<u8>, Option<Seq<u8>>)>,
)
    requires
        r1 == spec_run(targets, table),
        r2 == spec_run(targets, table),
    ensures
        r1 == r2,
        r1.to_multiset() == r2.to_multiset(),
{
}

/// Law: delivery is exact — the collection of a full run holds one entry
/// for each submitted target the stub succeeds on, with its annotation, in
/// submission order, and nothing else.
pub proof fn lemma_run_exact(targets: Seq<Seq<u8>>, table: Seq<(Seq<u8>, Option<Seq<u8>>)>)
    ensures
        spec_run(targets, table) == targets.filter(
            |t: Seq<u8>| stub_lookup(table, t) is Some,
        ).map_values(|t: Seq<u8>| (t, stub_lookup(table, t)->Some_0)),
    decreases targets.len(),
{
    reveal(Seq::filter);
    let pred = |t: Seq<u8>| stub_lookup(table, t) is Some;
    let f = |t: Seq<u8>| (t, stub_lookup(table, t)->Some_0);
    if targets.len() == 0 {
        assert(spec_run(targets, table) =~= targets.filter(pred).map_values(f));
    } else {
        lemma_run_exact(targets.drop_last(), table);
        let prev = targets.drop_last().filter(pred);
        if pred(targets.last()) {
            assert(targets.filter(pred) == prev.push(targets.last()));
            assert(prev.push(targets.last()).map_values(f) =~= prev.map_values(f).push(
                f(targets.last()),
            ));
        } else {
            assert(targets.filter(pred) == prev);
        }
        assert(spec_run(targets, table) =~= targets.filter(pred).map_values(f));
    }
}

} // verus!
