//! Schedules: named, ordered collections of systems.
//!
//! A system declares an id, an optional `runs after` constraint naming
//! another system's id, and what it does when it runs. Running a
//! schedule first resolves a deterministic order: a topological order
//! of the `after` constraints in which ties are broken by insertion
//! order, never arbitrarily. A constraint naming an id that no system
//! in the schedule has, or a cycle of constraints, is a configuration
//! error surfaced before any system runs.

use vstd::prelude::*;

verus! {

/// What a system does when it runs.
#[derive(Clone, Copy, Debug, PartialEq, Eq)]
pub enum Action {
    /// The runtime's own per-tick flip of the event channel of the
    /// given kind.
    UpdateEvents(u128),
    /// User logic, handed to the host under the system's id.
    Dispatch,
}

/// One system of a schedule.
#[derive(Clone, Copy, Debug, PartialEq, Eq)]
pub struct SystemEntry {
    /// The name of this unit of logic.
    pub id: u64,
    /// If set, every system with that id completes before this one
    /// starts.
    pub after: Option<u64>,
    /// What the system does.
    pub action: Action,
}

/// How a schedule executes its systems. Correctness never depends on
/// parallelism: a parallel executor may only overlap systems whose
/// declared accesses are disjoint, and running in the resolved order is
/// always sound, so this runtime executes both kinds sequentially.
#[derive(Clone, Copy, Debug, PartialEq, Eq)]
pub enum ExecutorKind {
    /// Systems run one after the other, in the resolved order.
    SingleThreaded,
    /// Non-conflicting systems may be overlapped; the resolved order
    /// remains a sound execution.
    Parallel,
}

/// A configuration error in a schedule's ordering constraints.
#[derive(Clone, Copy, Debug, PartialEq, Eq, Structural)]
pub enum ScheduleError {
    /// A system waits on an id that no system in the schedule has.
    UnknownDependency {
        /// The system whose constraint is dangling.
        system: u64,
        /// The id it waits on.
        missing: u64,
    },
    /// The `after` constraints form a cycle.
    Cycle,
}

/// Some system in the sequence has the id.
pub open spec fn has_id(s: Seq<SystemEntry>, a: u64) -> bool {
    exists|j: int| 0 <= j < s.len() && (#[trigger] s[j]).id == a
}

/// No system hands work to the host: the runtime's own event flips
/// are all the sequence holds, so running it cannot touch resources,
/// entities or the host.
pub open spec fn flips_only(s: Seq<SystemEntry>) -> bool {
    forall|i: int|
        0 <= i < s.len() ==> (#[trigger] s[i]).action matches Action::UpdateEvents(_)
}

/// How many of the systems flip the event channel of the given kind.
pub open spec fn count_flips(s: Seq<SystemEntry>, k: u128) -> nat
    decreases s.len(),
{
    if s.len() == 0 {
        0
    } else {
        count_flips(s.drop_last(), k) + if s.last().action == Action::UpdateEvents(k) {
            1nat
        } else {
            0nat
        }
    }
}

/// Every `after` constraint names an id some system has.
pub open spec fn deps_ok(s: Seq<SystemEntry>) -> bool {
    forall|i: int|
        0 <= i < s.len() ==> match (#[trigger] s[i]).after {
            Option::Some(a) => has_id(s, a),
            Option::None => true,
        }
}

/// The system at `i` may run next: it has not run, and everything it
/// waits on has.
pub open spec fn eligible(s: Seq<SystemEntry>, done: Seq<bool>, i: int) -> bool {
    &&& !done[i]
    &&& match s[i].after {
        Option::Some(a) => forall|j: int| 0 <= j < s.len() && (#[trigger] s[j]).id == a ==> done[j],
        Option::None => true,
    }
}

/// The first index at or past `from` that may run next.
pub open spec fn first_eligible_from(s: Seq<SystemEntry>, done: Seq<bool>, from: int) -> Option<
    int,
>
    decreases s.len() - from
        when 0 <= from <= s.len()
{
    if from >= s.len() {
        Option::None
    } else if eligible(s, done, from) {
        Option::Some(from)
    } else {
        first_eligible_from(s, done, from + 1)
    }
}

/// Repeatedly runs the first eligible system until all have run; yields
/// nothing when a step finds none eligible, which under `deps_ok` means
/// a cycle.
pub open spec fn resolve_step(
    s: Seq<SystemEntry>,
    done: Seq<bool>,
    acc: Seq<SystemEntry>,
    fuel: nat,
) -> Option<Seq<SystemEntry>>
    decreases fuel,
{
    if acc.len() == s.len() {
        Option::Some(acc)
    } else if fuel == 0 {
        Option::None
    } else {
        match first_eligible_from(s, done, 0) {
            Option::None => Option::None,
            Option::Some(i) => resolve_step(
                s,
                done.update(i, true),
                acc.push(s[i]),
                (fuel - 1) as nat,
            ),
        }
    }
}

/// The deterministic execution order of the systems: the greedy stable
/// topological order, or nothing on a cycle.
pub open spec fn resolve_order(s: Seq<SystemEntry>) -> Option<Seq<SystemEntry>> {
    resolve_step(s, Seq::new(s.len(), |i: int| false), Seq::empty(), s.len())
}

spec fn count_true(s: Seq<bool>) -> nat
    decreases s.len(),
{
    if s.len() == 0 {
        0
    } else {
        count_true(s.drop_last()) + if s.last() {
            1nat
        } else {
            0nat
        }
    }
}

proof fn lemma_count_true_update(s: Seq<bool>, i: int)
    requires
        0 <= i < s.len(),
        !s[i],
    ensures
        count_true(s.update(i, true)) == count_true(s) + 1,
    decreases s.len(),
{
    let t = s.update(i, true);
    if i == s.len() - 1 {
        assert(t.drop_last() =~= s.drop_last());
    } else {
        assert(t.drop_last() =~= s.drop_last().update(i, true));
        lemma_count_true_update(s.drop_last(), i);
        assert(t.last() == s.last());
    }
}

proof fn lemma_count_true_bound(s: Seq<bool>)
    ensures
        count_true(s) <= s.len(),
        count_true(s) == s.len() ==> forall|j: int| 0 <= j < s.len() ==> s[j],
    decreases s.len(),
{
    if s.len() > 0 {
        lemma_count_true_bound(s.drop_last());
        if count_true(s) == s.len() {
            assert forall|j: int| 0 <= j < s.len() implies s[j] by {
                if j < s.len() - 1 {
                    assert(s.drop_last()[j]);
                }
            }
        }
    }
}

proof fn lemma_first_eligible_some(s: Seq<SystemEntry>, done: Seq<bool>, from: int, i: int)
    requires
        0 <= from <= i < s.len(),
        eligible(s, done, i),
        forall|j: int| from <= j < i ==> !#[trigger] eligible(s, done, j),
    ensures
        first_eligible_from(s, done, from) == Option::Some(i),
    decreases i - from,
{
    if from < i {
        lemma_first_eligible_some(s, done, from + 1, i);
    }
}

proof fn lemma_first_eligible_none(s: Seq<SystemEntry>, done: Seq<bool>, from: int)
    requires
        0 <= from <= s.len(),
        forall|j: int| from <= j < s.len() ==> !#[trigger] eligible(s, done, j),
    ensures
        first_eligible_from(s, done, from) == Option::<int>::None,
    decreases s.len() - from,
{
    if from < s.len() {
        lemma_first_eligible_none(s, done, from + 1);
    }
}

/// Whether the system at `i` may run next, computed.
fn is_eligible(systems: &Vec<SystemEntry>, done: &Vec<bool>, i: usize) -> (r: bool)
    requires
        done@.len() == systems@.len(),
        i < systems@.len(),
    ensures
        r == eligible(systems@, done@, i as int),
{
    if done[i] {
        return false;
    }
    match systems[i].after {
        Option::None => true,
        Option::Some(a) => {
            let n: usize = systems.len();
            let mut j: usize = 0;
            while j < n
                invariant
                    n == systems@.len(),
                    done@.len() == n,
                    i < n,
                    j <= n,
                    systems@[i as int].after == Option::Some(a),
                    !done@[i as int],
                    forall|j2: int|
                        0 <= j2 < j && (#[trigger] systems@[j2]).id == a ==> done@[j2],
                decreases n - j,
            {
                if systems[j].id == a && !done[j] {
                    proof {
                        assert(systems@[j as int].id == a && !done@[j as int]);
                    }
                    return false;
                }
                j = j + 1;
            }
            true
        },
    }
}

/// The first system that may run next, computed.
fn first_eligible(systems: &Vec<SystemEntry>, done: &Vec<bool>) -> (r: Option<usize>)
    requires
        done@.len() == systems@.len(),
    ensures
        match r {
            Option::Some(i) => i < systems@.len() && first_eligible_from(systems@, done@, 0)
                == Option::Some(i as int) && eligible(systems@, done@, i as int),
            Option::None => first_eligible_from(systems@, done@, 0) == Option::<int>::None,
        },
{
    let n: usize = systems.len();
    let mut i: usize = 0;
    while i < n
        invariant
            n == systems@.len(),
            done@.len() == n,
            i <= n,
            forall|j: int| 0 <= j < i ==> !#[trigger] eligible(systems@, done@, j),
        decreases n - i,
    {
        if is_eligible(systems, done, i) {
            proof {
                lemma_first_eligible_some(systems@, done@, 0, i as int);
            }
            return Some(i);
        }
        i = i + 1;
    }
    proof {
        lemma_first_eligible_none(systems@, done@, 0);
    }
    None
}

/// Resolves the deterministic execution order of the systems: every
/// system exactly as often as it stands in the schedule, `after`
/// constraints respected, ties broken by insertion order. Fails, before
/// anything runs, on a constraint naming an id no system has, and on a
/// cycle.
pub fn resolve(systems: &Vec<SystemEntry>) -> (r: Result<Vec<SystemEntry>, ScheduleError>)
    ensures
        match r {
            Result::Ok(ord) => deps_ok(systems@) && resolve_order(systems@) == Option::Some(ord@),
            Result::Err(ScheduleError::UnknownDependency { system, missing }) => !deps_ok(systems@)
                && exists|i: int|
                0 <= i < systems@.len() && (#[trigger] systems@[i]).id == system
                    && systems@[i].after == Option::Some(missing) && !has_id(systems@, missing),
            Result::Err(ScheduleError::Cycle) => deps_ok(systems@) && resolve_order(systems@)
                == Option::<Seq<SystemEntry>>::None,
        },
{
    let n: usize = systems.len();

    let mut i: usize = 0;
    while i < n
        invariant
            n == systems@.len(),
            i <= n,
            forall|i2: int|
                0 <= i2 < i ==> match (#[trigger] systems@[i2]).after {
                    Option::Some(a) => has_id(systems@, a),
                    Option::None => true,
                },
        decreases n - i,
    {
        match systems[i].after {
            Option::None => {},
            Option::Some(a) => {
                let mut j: usize = 0;
                let mut found: bool = false;
                while j < n
                    invariant
                        n == systems@.len(),
                        j <= n,
                        found ==> has_id(systems@, a),
                        !found ==> forall|j2: int|
                            0 <= j2 < j ==> (#[trigger] systems@[j2]).id != a,
                    decreases n - j,
                {
                    if systems[j].id == a {
                        found = true;
                        j = n;
                    } else {
                        j = j + 1;
                    }
                }
                if !found {
                    return Err(ScheduleError::UnknownDependency {
                        system: systems[i].id,
                        missing: a,
                    });
                }
            },
        }
        i = i + 1;
    }

    let ghost s = systems@;
    let mut done: Vec<bool> = Vec::new();
    let mut k: usize = 0;
    while k < n
        invariant
            n == systems@.len(),
            k <= n,
            done@.len() == k,
            forall|j: int| 0 <= j < k ==> !done@[j],
        decreases n - k,
    {
        done.push(false);
        k = k + 1;
    }
    proof {
        assert(done@ =~= Seq::new(s.len(), |i: int| false));
        assert(count_true(done@) == 0) by {
            lemma_count_all_false(done@);
        }
    }

    let mut acc: Vec<SystemEntry> = Vec::new();
    while acc.len() < n
        invariant
            n == systems@.len(),
            s == systems@,
            deps_ok(s),
            done@.len() == n,
            acc@.len() <= n,
            count_true(done@) == acc@.len(),
            resolve_order(s) == resolve_step(s, done@, acc@, (n - acc@.len()) as nat),
        decreases n - acc.len(),
    {
        match first_eligible(systems, &done) {
            Option::Some(i) => {
                proof {
                    lemma_count_true_update(done@, i as int);
                }
                done.set(i, true);
                acc.push(systems[i]);
            },
            Option::None => {
                return Err(ScheduleError::Cycle);
            },
        }
    }
    Ok(acc)
}

proof fn lemma_count_all_false(s: Seq<bool>)
    requires
        forall|j: int| 0 <= j < s.len() ==> !s[j],
    ensures
        count_true(s) == 0,
    decreases s.len(),
{
    if s.len() > 0 {
        lemma_count_all_false(s.drop_last());
    }
}

proof fn lemma_first_eligible_inv(s: Seq<SystemEntry>, done: Seq<bool>, from: int)
    requires
        0 <= from <= s.len(),
    ensures
        match first_eligible_from(s, done, from) {
            Option::Some(i) => from <= i < s.len() && eligible(s, done, i),
            Option::None => true,
        },
    decreases s.len() - from,
{
    if from < s.len() && !eligible(s, done, from) {
        lemma_first_eligible_inv(s, done, from + 1);
    }
}

/// With no `after` constraints, the resolved order is the insertion
/// order: every system runs, in the order the schedule got them.
pub proof fn lemma_insertion_order(s: Seq<SystemEntry>)
    requires
        forall|i: int| 0 <= i < s.len() ==> (#[trigger] s[i]).after == Option::<u64>::None,
    ensures
        resolve_order(s) == Option::Some(s),
{
    let done0 = Seq::new(s.len(), |i: int| false);
    assert(Seq::<SystemEntry>::empty() =~= s.subrange(0, 0));
    lemma_insertion_order_step(s, done0, Seq::empty());
}

proof fn lemma_insertion_order_step(s: Seq<SystemEntry>, done: Seq<bool>, acc: Seq<SystemEntry>)
    requires
        forall|i: int| 0 <= i < s.len() ==> (#[trigger] s[i]).after == Option::<u64>::None,
        done.len() == s.len(),
        acc.len() <= s.len(),
        forall|j: int| 0 <= j < s.len() ==> (#[trigger] done[j] <==> j < acc.len()),
        acc == s.subrange(0, acc.len() as int),
    ensures
        resolve_step(s, done, acc, (s.len() - acc.len()) as nat) == Option::Some(s),
    decreases s.len() - acc.len(),
{
    if acc.len() == s.len() {
        assert(acc =~= s);
    } else {
        let i = acc.len() as int;
        assert(eligible(s, done, i));
        assert forall|j: int| 0 <= j < i implies !#[trigger] eligible(s, done, j) by {
            assert(done[j]);
        }
        lemma_first_eligible_some(s, done, 0, i);
        let done2 = done.update(i, true);
        let acc2 = acc.push(s[i]);
        assert forall|j: int| 0 <= j < s.len() implies (#[trigger] done2[j] <==> j
            < acc2.len()) by {
            if j != i {
                assert(done[j] <==> j < acc.len());
            }
        }
        assert(acc2 =~= s.subrange(0, acc2.len() as int));
        lemma_insertion_order_step(s, done2, acc2);
    }
}

/// In the resolved order every system of the schedule appears, the
/// order is a permutation in length, and whatever a system waits on
/// completes before it starts: if the system at position `q` waits on
/// an id, then every system carrying that id stands at some earlier
/// position.
pub proof fn lemma_after_respected(s: Seq<SystemEntry>, ord: Seq<SystemEntry>)
    requires
        resolve_order(s) == Option::Some(ord),
    ensures
        ord.len() == s.len(),
        forall|j: int| 0 <= j < s.len() ==> ord.contains(#[trigger] s[j]),
        forall|q: int| 0 <= q < ord.len() ==> s.contains(#[trigger] ord[q]),
        forall|q: int, j: int|
            0 <= q < ord.len() && 0 <= j < s.len() && (#[trigger] ord[q]).after == Option::Some(
                (#[trigger] s[j]).id,
            ) ==> exists|p: int| 0 <= p < q && ord[p] == s[j],
{
    let done0 = Seq::new(s.len(), |i: int| false);
    lemma_count_all_false(done0);
    lemma_after_respected_step(s, done0, Seq::empty(), s.len(), ord);
}

proof fn lemma_after_respected_step(
    s: Seq<SystemEntry>,
    done: Seq<bool>,
    acc: Seq<SystemEntry>,
    fuel: nat,
    ord: Seq<SystemEntry>,
)
    requires
        fuel + acc.len() == s.len(),
        done.len() == s.len(),
        count_true(done) == acc.len(),
        resolve_step(s, done, acc, fuel) == Option::Some(ord),
        forall|j: int|
            0 <= j < s.len() && #[trigger] done[j] ==> exists|p: int|
                0 <= p < acc.len() && acc[p] == s[j],
        forall|q: int| 0 <= q < acc.len() ==> s.contains(#[trigger] acc[q]),
        forall|q: int, j: int|
            0 <= q < acc.len() && 0 <= j < s.len() && (#[trigger] acc[q]).after == Option::Some(
                (#[trigger] s[j]).id,
            ) ==> done[j] && exists|p: int| 0 <= p < q && acc[p] == s[j],
    ensures
        ord.len() == s.len(),
        forall|j: int| 0 <= j < s.len() ==> ord.contains(#[trigger] s[j]),
        forall|q: int| 0 <= q < ord.len() ==> s.contains(#[trigger] ord[q]),
        forall|q: int, j: int|
            0 <= q < ord.len() && 0 <= j < s.len() && (#[trigger] ord[q]).after == Option::Some(
                (#[trigger] s[j]).id,
            ) ==> exists|p: int| 0 <= p < q && ord[p] == s[j],
    decreases fuel,
{
    if acc.len() == s.len() {
        assert(ord == acc);
        lemma_count_true_bound(done);
        assert forall|j: int| 0 <= j < s.len() implies ord.contains(#[trigger] s[j]) by {
            assert(done[j]);
            let p = choose|p: int| 0 <= p < acc.len() && acc[p] == s[j];
            assert(ord[p] == s[j]);
        }
    } else {
        lemma_first_eligible_inv(s, done, 0);
        let i = first_eligible_from(s, done, 0).unwrap();
        let done2 = done.update(i, true);
        let acc2 = acc.push(s[i]);
        lemma_count_true_update(done, i);
        assert forall|q: int| 0 <= q < acc2.len() implies s.contains(#[trigger] acc2[q]) by {
            if q < acc.len() {
                assert(s.contains(acc[q]));
            } else {
                assert(acc2[q] == s[i]);
            }
        }
        assert forall|j: int|
            0 <= j < s.len() && #[trigger] done2[j] implies exists|p: int|
            0 <= p < acc2.len() && acc2[p] == s[j] by {
            if j == i {
                assert(acc2[acc.len() as int] == s[j]);
            } else {
                assert(done[j]);
                let p = choose|p: int| 0 <= p < acc.len() && acc[p] == s[j];
                assert(acc2[p] == s[j]);
            }
        }
        assert forall|q: int, j: int|
            0 <= q < acc2.len() && 0 <= j < s.len() && (#[trigger] acc2[q]).after == Option::Some(
                (#[trigger] s[j]).id,
            ) implies done2[j] && exists|p: int| 0 <= p < q && acc2[p] == s[j] by {
            if q < acc.len() {
                assert(acc[q].after == Option::Some(s[j].id));
                let p = choose|p: int| 0 <= p < q && acc[p] == s[j];
                assert(acc2[p] == s[j]);
            } else {
                assert(acc2[q] == s[i]);
                assert(eligible(s, done, i));
                assert(done[j]);
                let p = choose|p: int| 0 <= p < acc.len() && acc[p] == s[j];
                assert(acc2[p] == s[j]);
            }
        }
        lemma_after_respected_step(s, done2, acc2, (fuel - 1) as nat, ord);
    }
}

/// A named, ordered collection of systems with an execution strategy.
pub struct Schedule {
    systems: Vec<SystemEntry>,
    kind: ExecutorKind,
}

impl Schedule {
    /// The systems, in insertion order.
    pub closed spec fn systems_seq(self) -> Seq<SystemEntry> {
        self.systems@
    }

    /// The execution strategy.
    pub closed spec fn spec_kind(self) -> ExecutorKind {
        self.kind
    }

    /// An empty single-threaded schedule.
    pub fn new() -> (r: Schedule)
        ensures
            r.systems_seq() =~= Seq::<SystemEntry>::empty(),
            r.spec_kind() == ExecutorKind::SingleThreaded,
    {
        Schedule { systems: Vec::new(), kind: ExecutorKind::SingleThreaded }
    }

    /// Picks the execution strategy.
    pub fn set_executor_kind(&mut self, kind: ExecutorKind)
        ensures
            final(self).systems_seq() == old(self).systems_seq(),
            final(self).spec_kind() == kind,
    {
        self.kind = kind;
    }

    /// Appends systems, keeping those already there and their order.
    pub fn add_systems(&mut self, systems: Vec<SystemEntry>)
        ensures
            final(self).systems_seq() == old(self).systems_seq() + systems@,
            final(self).spec_kind() == old(self).spec_kind(),
    {
        let mut tail = systems;
        self.systems.append(&mut tail);
    }

    /// The deterministic execution order of this schedule; see
    /// [`resolve`].
    pub fn resolved(&self) -> (r: Result<Vec<SystemEntry>, ScheduleError>)
        ensures
            match r {
                Result::Ok(ord) => deps_ok(self.systems_seq()) && resolve_order(self.systems_seq())
                    == Option::Some(ord@),
                Result::Err(ScheduleError::UnknownDependency { system, missing }) => !deps_ok(
                    self.systems_seq(),
                ) && exists|i: int|
                    0 <= i < self.systems_seq().len() && (#[trigger] self.systems_seq()[i]).id
                        == system && self.systems_seq()[i].after == Option::Some(missing) && !has_id(
                        self.systems_seq(),
                        missing,
                    ),
                Result::Err(ScheduleError::Cycle) => deps_ok(self.systems_seq()) && resolve_order(
                    self.systems_seq(),
                ) == Option::<Seq<SystemEntry>>::None,
            },
    {
        resolve(&self.systems)
    }
}

} // verus!
