//! Worker registry and load-balanced dispatcher. The registry tracks each
//! connected worker with its in-flight task count, keeps an ordered load
//! index of `(count, id)` pairs beside it, dispatches each new solution to
//! the worker with the least `(count, id)` pair, and broadcasts test-set
//! updates to every worker. The count is never decremented: it is monotonic
//! per worker for the registry's lifetime.

use vstd::prelude::*;

use crate::config::{ServerToMachine, Solution};
use crate::error::OcjError;

verus! {

/// A worker's outbound queue: tokio's unbounded sender half, carried
/// opaquely.
#[verifier::external_type_specification]
#[verifier::external_body]
#[verifier::reject_recursive_types(T)]
pub struct ExUnboundedSender<T>(tokio::sync::mpsc::UnboundedSender<T>);

/// Relies on tokio's `UnboundedSender::send`: enqueues a clone of the
/// message for the receiving half unless that half is closed, and never
/// blocks. The result says whether the receiver was still open.
#[verifier::external_body]
fn channel_send(sender: &tokio::sync::mpsc::UnboundedSender<ServerToMachine>, msg: &ServerToMachine) -> bool {
    sender.send(msg.clone()).is_ok()
}

/// The server-side record of one connected worker.
pub struct Machine {
    pub id: u16,
    pub tasks_count: usize,
    pub ws_sender: tokio::sync::mpsc::UnboundedSender<ServerToMachine>,
}

impl Machine {
    /// A newly connected worker: no task has been dispatched to it yet.
    pub fn new(id: u16, ws_sender: tokio::sync::mpsc::UnboundedSender<ServerToMachine>) -> (r:
        Machine)
        ensures
            r.id == id,
            r.tasks_count == 0,
    {
        Machine { id, tasks_count: 0, ws_sender }
    }

    /// Forwards a solution to this worker's outbound queue; the result says
    /// whether the worker's queue was still open.
    pub fn send_solution(&self, solution: &Solution) -> bool {
        let msg = ServerToMachine::JudgeSolution(solution.clone());
        channel_send(&self.ws_sender, &msg)
    }

    /// Forwards a test bundle to this worker's outbound queue.
    pub fn send_tests(&self, file: Vec<u8>) -> bool {
        let msg = ServerToMachine::UpdateTests(file);
        channel_send(&self.ws_sender, &msg)
    }
}

/// Strict order on load-index entries: by count first, then by worker id.
pub open spec fn pair_lt(a: (usize, u16), b: (usize, u16)) -> bool {
    a.0 < b.0 || (a.0 == b.0 && a.1 < b.1)
}

/// Non-strict order on load-index entries.
pub open spec fn pair_le(a: (usize, u16), b: (usize, u16)) -> bool {
    a.0 < b.0 || (a.0 == b.0 && a.1 <= b.1)
}

/// A strictly ascending sequence of load-index entries.
pub open spec fn sorted(s: Seq<(usize, u16)>) -> bool {
    forall|a: int, b: int| 0 <= a < b < s.len() ==> pair_lt(s[a], s[b])
}

/// Whether a load-index entry belongs to a worker in the list: a worker
/// with that id whose count is the entry's count.
pub open spec fn entry_has_machine(ms: Seq<Machine>, e: (usize, u16)) -> bool {
    exists|i: int| 0 <= i < ms.len() && ms[i].id == e.1 && ms[i].tasks_count == e.0
}

/// The worker registry: the workers, and the ordered load index that keeps
/// one `(count, id)` entry per live worker.
pub struct Service {
    machines: Vec<Machine>,
    machines_tasks_counters: Vec<(usize, u16)>,
}

impl Service {
    /// The number of registered workers.
    pub closed spec fn num_machines(self) -> nat {
        self.machines@.len()
    }

    /// Whether a worker with this id is registered.
    pub closed spec fn contains_id(self, id: u16) -> bool {
        exists|i: int| 0 <= i < self.machines@.len() && self.machines@[i].id == id
    }

    /// The in-flight task count of the worker with this id.
    pub closed spec fn count_of(self, id: u16) -> usize {
        let i = choose|i: int| 0 <= i < self.machines@.len() && self.machines@[i].id == id;
        self.machines@[i].tasks_count
    }

    /// The in-flight task counts, in registration order.
    pub closed spec fn counts_seq(self) -> Seq<nat> {
        self.machines@.map_values(|m: Machine| m.tasks_count as nat)
    }

    /// The id the dispatcher would select next: the worker id of the least
    /// load-index entry, if any worker is registered.
    pub closed spec fn dispatch_choice(self) -> Option<u16> {
        if self.machines_tasks_counters@.len() > 0 {
            Some(self.machines_tasks_counters@[0].1)
        } else {
            None
        }
    }

    /// Registry invariant: worker ids are unique; the load index is strictly
    /// ordered, has exactly one entry per worker, and every entry belongs to
    /// a worker with exactly that count.
    pub closed spec fn wf(self) -> bool {
        let ms = self.machines@;
        let cs = self.machines_tasks_counters@;
        &&& cs.len() == ms.len()
        &&& forall|a: int, b: int| 0 <= a < b < ms.len() ==> ms[a].id != ms[b].id
        &&& sorted(cs)
        &&& forall|i: int|
            0 <= i < ms.len() ==> cs.contains((#[trigger] ms[i].tasks_count, ms[i].id))
        &&& forall|j: int| 0 <= j < cs.len() ==> entry_has_machine(ms, #[trigger] cs[j])
    }

    /// An empty registry.
    pub fn init() -> (r: Service)
        ensures
            r.wf(),
            r.num_machines() == 0,
            forall|id: u16| !r.contains_id(id),
    {
        Service { machines: Vec::new(), machines_tasks_counters: Vec::new() }
    }

    /// Whether a worker with this id is registered; lets a caller pick a
    /// fresh id before registering.
    pub fn contains_machine(&self, id: u16) -> (r: bool)
        ensures
            r == self.contains_id(id),
    {
        let n = self.machines.len();
        let mut i: usize = 0;
        while i < n
            invariant
                n == self.machines@.len(),
                0 <= i <= n,
                forall|j: int| 0 <= j < i ==> self.machines@[j].id != id,
            decreases n - i,
        {
            if self.machines[i].id == id {
                return true;
            }
            i = i + 1;
        }
        false
    }

    /// Registers a connected worker, with initial load 0, and gives it its
    /// entry in the load index.
    pub fn add_machine(&mut self, machine: Machine)
        requires
            old(self).wf(),
            !old(self).contains_id(machine.id),
            machine.tasks_count == 0,
        ensures
            final(self).wf(),
            final(self).num_machines() == old(self).num_machines() + 1,
            final(self).contains_id(machine.id),
            final(self).count_of(machine.id) == 0,
            forall|id2: u16|
                id2 != machine.id ==> final(self).contains_id(id2) == old(self).contains_id(id2),
            forall|id2: u16|
                id2 != machine.id && old(self).contains_id(id2) ==> final(self).count_of(id2)
                    == old(self).count_of(id2),
    {
        let ghost ms0 = self.machines@;
        let ghost cs0 = self.machines_tasks_counters@;
        let id = machine.id;
        proof {
            if cs0.contains((0usize, id)) {
                let j = choose|j: int| 0 <= j < cs0.len() && cs0[j] == (0usize, id);
                assert(entry_has_machine(ms0, cs0[j]));
                assert(false);
            }
        }
        index_insert(&mut self.machines_tasks_counters, (0, id));
        self.machines.push(machine);
        proof {
            let ms1 = self.machines@;
            let cs1 = self.machines_tasks_counters@;
            assert forall|a: int, b: int| 0 <= a < b < ms1.len() implies ms1[a].id != ms1[b].id by {
                if b == ms0.len() {
                    assert(ms1[a] == ms0[a]);
                    assert(ms1[b] == machine);
                } else {
                    assert(ms1[a] == ms0[a] && ms1[b] == ms0[b]);
                }
            }
            assert forall|i: int|
                0 <= i < ms1.len() implies cs1.contains(
                (#[trigger] ms1[i].tasks_count, ms1[i].id),
            ) by {
                if i < ms0.len() {
                    assert(ms1[i] == ms0[i]);
                    assert(cs0.contains((ms0[i].tasks_count, ms0[i].id)));
                } else {
                    assert(ms1[i] == machine);
                }
            }
            assert forall|j: int| 0 <= j < cs1.len() implies entry_has_machine(
                ms1,
                #[trigger] cs1[j],
            ) by {
                assert(cs1.contains(cs1[j]));
                if cs0.contains(cs1[j]) {
                    let j0 = choose|j0: int| 0 <= j0 < cs0.len() && cs0[j0] == cs1[j];
                    assert(entry_has_machine(ms0, cs0[j0]));
                    let i0 = choose|i0: int|
                        0 <= i0 < ms0.len() && ms0[i0].id == cs0[j0].1 && ms0[i0].tasks_count
                            == cs0[j0].0;
                    assert(ms1[i0] == ms0[i0]);
                } else {
                    assert(cs1[j] == (0usize, id));
                    assert(ms1[ms0.len() as int] == machine);
                }
            }
            assert(final(self).wf());
            lemma_count_at(*final(self), ms0.len() as int);
            assert forall|id2: u16| id2 != id implies final(self).contains_id(id2) == old(
                self,
            ).contains_id(id2) by {
                if old(self).contains_id(id2) {
                    let i0 = choose|i0: int| 0 <= i0 < ms0.len() && ms0[i0].id == id2;
                    assert(ms1[i0] == ms0[i0]);
                }
                if final(self).contains_id(id2) {
                    let i1 = choose|i1: int| 0 <= i1 < ms1.len() && ms1[i1].id == id2;
                    assert(i1 < ms0.len() && ms1[i1] == ms0[i1]);
                }
            }
            assert forall|id2: u16|
                id2 != id && old(self).contains_id(id2) implies final(self).count_of(id2) == old(
                self,
            ).count_of(id2) by {
                let i0 = choose|i0: int| 0 <= i0 < ms0.len() && ms0[i0].id == id2;
                assert(ms1[i0] == ms0[i0]);
                lemma_count_at(*old(self), i0);
                lemma_count_at(*final(self), i0);
            }
        }
    }
}

impl Service {
    /// The index of the registered worker with this id.
    fn find_machine(&self, id: u16) -> (r: usize)
        requires
            self.contains_id(id),
        ensures
            r < self.machines@.len(),
            self.machines@[r as int].id == id,
    {
        let n = self.machines.len();
        let mut i: usize = 0;
        while i < n
            invariant
                n == self.machines@.len(),
                0 <= i <= n,
                self.contains_id(id),
                forall|j: int| 0 <= j < i ==> self.machines@[j].id != id,
            decreases n - i,
        {
            if self.machines[i].id == id {
                return i;
            }
            i = i + 1;
        }
        proof {
            assert(false);
        }
        0
    }

    /// The index of a load-index entry.
    fn find_counter(&self, e: (usize, u16)) -> (r: usize)
        requires
            self.machines_tasks_counters@.contains(e),
        ensures
            r < self.machines_tasks_counters@.len(),
            self.machines_tasks_counters@[r as int] == e,
    {
        let n = self.machines_tasks_counters.len();
        let mut i: usize = 0;
        while i < n
            invariant
                n == self.machines_tasks_counters@.len(),
                0 <= i <= n,
                self.machines_tasks_counters@.contains(e),
                forall|j: int| 0 <= j < i ==> self.machines_tasks_counters@[j] != e,
            decreases n - i,
        {
            let (c, id) = self.machines_tasks_counters[i];
            if c == e.0 && id == e.1 {
                return i;
            }
            i = i + 1;
        }
        proof {
            assert(false);
        }
        0
    }

    /// Deregisters the worker with this id and removes its load-index
    /// entry; every other worker and its count stay as they were.
    pub fn remove_machine(&mut self, id: u16)
        requires
            old(self).wf(),
            old(self).contains_id(id),
        ensures
            final(self).wf(),
            final(self).num_machines() == old(self).num_machines() - 1,
            !final(self).contains_id(id),
            forall|id2: u16|
                id2 != id ==> final(self).contains_id(id2) == old(self).contains_id(id2),
            forall|id2: u16|
                id2 != id && old(self).contains_id(id2) ==> final(self).count_of(id2) == old(
                    self,
                ).count_of(id2),
    {
        let ghost ms0 = self.machines@;
        let ghost cs0 = self.machines_tasks_counters@;
        let k = self.find_machine(id);
        let c = self.machines[k].tasks_count;
        proof {
            assert(cs0.contains((#[trigger] ms0[k as int].tasks_count, ms0[k as int].id)));
        }
        let j = self.find_counter((c, id));
        self.machines_tasks_counters.remove(j);
        self.machines.remove(k);
        proof {
            let ms1 = final(self).machines@;
            let cs1 = final(self).machines_tasks_counters@;
            ms0.remove_ensures(k as int);
            cs0.remove_ensures(j as int);
            assert forall|a: int, b: int| 0 <= a < b < ms1.len() implies ms1[a].id != ms1[b].id by {
                lemma_seq_remove_maps(ms0, k as int, a);
                lemma_seq_remove_maps(ms0, k as int, b);
            }
            assert forall|a: int, b: int| 0 <= a < b < cs1.len() implies pair_lt(cs1[a], cs1[b]) by {
                lemma_counter_remove_maps(cs0, j as int, a);
                lemma_counter_remove_maps(cs0, j as int, b);
            }
            assert forall|i: int|
                0 <= i < ms1.len() implies cs1.contains(
                (#[trigger] ms1[i].tasks_count, ms1[i].id),
            ) by {
                lemma_seq_remove_maps(ms0, k as int, i);
                let i0 = if i < k {
                    i
                } else {
                    i + 1
                };
                assert(ms1[i] == ms0[i0]);
                assert(cs0.contains((ms0[i0].tasks_count, ms0[i0].id)));
                let j0 = choose|j0: int|
                    0 <= j0 < cs0.len() && cs0[j0] == (ms0[i0].tasks_count, ms0[i0].id);
                if i0 < k {
                    assert(ms0[i0].id != ms0[k as int].id);
                } else {
                    assert(ms0[k as int].id != ms0[i0].id);
                }
                assert(cs0[j0] != cs0[j as int]);
                assert(j0 != j);
                lemma_counter_remove_maps(cs0, j as int, if j0 < j {
                    j0
                } else {
                    j0 - 1
                });
            }
            assert forall|j2: int| 0 <= j2 < cs1.len() implies entry_has_machine(
                ms1,
                #[trigger] cs1[j2],
            ) by {
                lemma_counter_remove_maps(cs0, j as int, j2);
                let j0 = if j2 < j {
                    j2
                } else {
                    j2 + 1
                };
                assert(cs1[j2] == cs0[j0]);
                assert(entry_has_machine(ms0, cs0[j0]));
                let i0 = choose|i0: int|
                    0 <= i0 < ms0.len() && ms0[i0].id == cs0[j0].1 && ms0[i0].tasks_count
                        == cs0[j0].0;
                if j0 < j {
                    assert(pair_lt(cs0[j0], cs0[j as int]));
                } else {
                    assert(pair_lt(cs0[j as int], cs0[j0]));
                }
                assert(cs0[j0] != (c, id));
                assert(i0 != k);
                let i1 = if i0 < k {
                    i0
                } else {
                    i0 - 1
                };
                lemma_seq_remove_maps(ms0, k as int, i1);
                assert(0 <= i1 < ms1.len() && ms1[i1].id == cs1[j2].1 && ms1[i1].tasks_count
                    == cs1[j2].0);
            }
            assert(final(self).wf());
            if final(self).contains_id(id) {
                let i1 = choose|i1: int| 0 <= i1 < ms1.len() && ms1[i1].id == id;
                lemma_seq_remove_maps(ms0, k as int, i1);
                assert(false);
            }
            assert forall|id2: u16| id2 != id implies final(self).contains_id(id2) == old(
                self,
            ).contains_id(id2) by {
                if old(self).contains_id(id2) {
                    let i0 = choose|i0: int| 0 <= i0 < ms0.len() && ms0[i0].id == id2;
                    assert(i0 != k);
                    lemma_seq_remove_maps(ms0, k as int, if i0 < k {
                        i0
                    } else {
                        i0 - 1
                    });
                }
                if final(self).contains_id(id2) {
                    let i1 = choose|i1: int| 0 <= i1 < ms1.len() && ms1[i1].id == id2;
                    lemma_seq_remove_maps(ms0, k as int, i1);
                }
            }
            assert forall|id2: u16|
                id2 != id && old(self).contains_id(id2) implies final(self).count_of(id2) == old(
                self,
            ).count_of(id2) by {
                let i0 = choose|i0: int| 0 <= i0 < ms0.len() && ms0[i0].id == id2;
                assert(i0 != k);
                let i1 = if i0 < k {
                    i0
                } else {
                    i0 - 1
                };
                lemma_seq_remove_maps(ms0, k as int, i1);
                assert(ms1[i1] == ms0[i0]);
                lemma_count_at(*old(self), i0);
                lemma_count_at(*final(self), i1);
            }
        }
    }
}

/// Whether position `j` holds a least value of the sequence.
pub open spec fn is_min_index(s: Seq<nat>, j: int) -> bool {
    0 <= j < s.len() && forall|k: int| 0 <= k < s.len() ==> s[j] <= s[k]
}

impl Service {
    /// Dispatches a solution: selects the worker with the least
    /// `(count, id)` pair, increments that worker's count both in the
    /// registry and in the load index, and forwards the solution to the
    /// worker's outbound queue. Fails with `NoneMachineFound` exactly when
    /// no worker is registered, and then changes nothing.
    pub fn dispatch(&mut self, solution: &Solution) -> (r: Result<u16, OcjError>)
        requires
            old(self).wf(),
            forall|id: u16| old(self).contains_id(id) ==> old(self).count_of(id) < usize::MAX,
        ensures
            final(self).wf(),
            (old(self).num_machines() == 0) <==> r is Err,
            r is Err ==> r == Err::<u16, OcjError>(OcjError::NoneMachineFound) && *final(self)
                == *old(self),
            r matches Ok(id) ==> {
                &&& Some(id) == old(self).dispatch_choice()
                &&& old(self).contains_id(id)
                &&& forall|id2: u16|
                    old(self).contains_id(id2) ==> pair_le(
                        (old(self).count_of(id), id),
                        (old(self).count_of(id2), id2),
                    )
                &&& final(self).num_machines() == old(self).num_machines()
                &&& forall|id2: u16| final(self).contains_id(id2) == old(self).contains_id(id2)
                &&& final(self).contains_id(id)
                &&& final(self).count_of(id) == old(self).count_of(id) + 1
                &&& forall|id2: u16|
                    id2 != id && old(self).contains_id(id2) ==> final(self).count_of(id2) == old(
                        self,
                    ).count_of(id2)
                &&& exists|j: int|
                    is_min_index(old(self).counts_seq(), j) && final(self).counts_seq() == old(
                        self,
                    ).counts_seq().update(j, (old(self).counts_seq()[j] + 1) as nat)
            },
    {
        let ghost ms0 = self.machines@;
        let ghost cs0 = self.machines_tasks_counters@;
        if self.machines_tasks_counters.len() == 0 {
            return Err(OcjError::NoneMachineFound);
        }
        let (c, id) = self.machines_tasks_counters[0];
        proof {
            assert(entry_has_machine(ms0, cs0[0]));
            assert(old(self).contains_id(id));
        }
        let k = self.find_machine(id);
        proof {
            let i0 = choose|i0: int|
                0 <= i0 < ms0.len() && ms0[i0].id == cs0[0].1 && ms0[i0].tasks_count == cs0[0].0;
            if i0 != k {
                if i0 < k {
                    assert(ms0[i0].id != ms0[k as int].id);
                } else {
                    assert(ms0[k as int].id != ms0[i0].id);
                }
            }
            assert(ms0[k as int].tasks_count == c);
            lemma_count_at(*old(self), k as int);
        }
        self.machines_tasks_counters.remove(0);
        proof {
            let csr = self.machines_tasks_counters@;
            cs0.remove_ensures(0);
            assert forall|a: int, b: int| 0 <= a < b < csr.len() implies pair_lt(csr[a], csr[b]) by {
                lemma_counter_remove_maps(cs0, 0, a);
                lemma_counter_remove_maps(cs0, 0, b);
            }
            if csr.contains((((c + 1) as usize), id)) {
                let j2 = choose|j2: int| 0 <= j2 < csr.len() && csr[j2] == (((c + 1) as usize, id));
                lemma_counter_remove_maps(cs0, 0, j2);
                assert(cs0[j2 + 1] == (((c + 1) as usize, id)));
                assert(entry_has_machine(ms0, cs0[j2 + 1]));
                let i2 = choose|i2: int|
                    0 <= i2 < ms0.len() && ms0[i2].id == cs0[j2 + 1].1 && ms0[i2].tasks_count
                        == cs0[j2 + 1].0;
                if i2 != k {
                    if i2 < k {
                        assert(ms0[i2].id != ms0[k as int].id);
                    } else {
                        assert(ms0[k as int].id != ms0[i2].id);
                    }
                }
                assert(false);
            }
        }
        index_insert(&mut self.machines_tasks_counters, (c + 1, id));
        let mut m = self.machines.remove(k);
        let _delivered = m.send_solution(solution);
        m.tasks_count = m.tasks_count + 1;
        let ghost m1 = m;
        self.machines.insert(k, m);
        proof {
            let ms1 = final(self).machines@;
            let cs1 = final(self).machines_tasks_counters@;
            let csr = cs0.remove(0);
            ms0.remove_ensures(k as int);
            ms0.remove(k as int).insert_ensures(k as int, m1);
            assert forall|i: int| 0 <= i < ms1.len() && i != k implies ms1[i] == ms0[i] by {
                if i < k {
                    assert(ms1[i] == ms0.remove(k as int)[i]);
                } else {
                    assert(ms1[((i - 1) as int) + 1] == ms0.remove(k as int)[i - 1]);
                    lemma_seq_remove_maps(ms0, k as int, i - 1);
                }
            }
            assert(ms1[k as int] == m1);
            assert(m1.id == id && m1.tasks_count == c + 1);
            assert forall|a: int, b: int| 0 <= a < b < ms1.len() implies ms1[a].id != ms1[b].id by {
                assert(ms1[a].id == ms0[a].id && ms1[b].id == ms0[b].id);
            }
            // the load index after the update
            assert forall|x: (usize, u16)| csr.contains(x) implies cs0.contains(x) && x != cs0[0] by {
                let j2 = choose|j2: int| 0 <= j2 < csr.len() && csr[j2] == x;
                lemma_counter_remove_maps(cs0, 0, j2);
                assert(cs0[j2 + 1] == x);
                assert(pair_lt(cs0[0], cs0[j2 + 1]));
            }
            assert forall|x: (usize, u16)| cs0.contains(x) && x != cs0[0] implies csr.contains(x) by {
                let j2 = choose|j2: int| 0 <= j2 < cs0.len() && cs0[j2] == x;
                if j2 > 0 {
                    lemma_counter_remove_maps(cs0, 0, j2 - 1);
                    assert(csr[j2 - 1] == x);
                }
            }
            // well-formedness
            assert forall|i: int|
                0 <= i < ms1.len() implies cs1.contains(
                (#[trigger] ms1[i].tasks_count, ms1[i].id),
            ) by {
                if i == k {
                    assert(cs1.contains(((c + 1) as usize, id)));
                } else {
                    assert(ms1[i] == ms0[i]);
                    assert(cs0.contains((ms0[i].tasks_count, ms0[i].id)));
                    if i < k {
                        assert(ms0[i].id != ms0[k as int].id);
                    } else {
                        assert(ms0[k as int].id != ms0[i].id);
                    }
                    assert((ms0[i].tasks_count, ms0[i].id) != cs0[0]);
                }
            }
            assert forall|j2: int| 0 <= j2 < cs1.len() implies entry_has_machine(
                ms1,
                #[trigger] cs1[j2],
            ) by {
                assert(cs1.contains(cs1[j2]));
                if cs1[j2] == ((c + 1) as usize, id) {
                    assert(ms1[k as int].id == id && ms1[k as int].tasks_count == c + 1);
                } else {
                    assert(csr.contains(cs1[j2]));
                    assert(cs0.contains(cs1[j2]) && cs1[j2] != cs0[0]);
                    let j0 = choose|j0: int| 0 <= j0 < cs0.len() && cs0[j0] == cs1[j2];
                    assert(entry_has_machine(ms0, cs0[j0]));
                    let i0 = choose|i0: int|
                        0 <= i0 < ms0.len() && ms0[i0].id == cs0[j0].1 && ms0[i0].tasks_count
                            == cs0[j0].0;
                    if i0 == k {
                        assert(cs0[j0] == cs0[0]);
                        assert(false);
                    }
                    assert(ms1[i0] == ms0[i0]);
                }
            }
            assert(final(self).wf());
            // counts and membership, old against new
            lemma_count_at(*final(self), k as int);
            assert forall|id2: u16| final(self).contains_id(id2) == old(self).contains_id(id2) by {
                if old(self).contains_id(id2) {
                    let i0 = choose|i0: int| 0 <= i0 < ms0.len() && ms0[i0].id == id2;
                    assert(ms1[i0].id == id2);
                }
                if final(self).contains_id(id2) {
                    let i1 = choose|i1: int| 0 <= i1 < ms1.len() && ms1[i1].id == id2;
                    assert(ms0[i1].id == id2);
                }
            }
            assert forall|id2: u16|
                id2 != id && old(self).contains_id(id2) implies final(self).count_of(id2) == old(
                self,
            ).count_of(id2) by {
                let i0 = choose|i0: int| 0 <= i0 < ms0.len() && ms0[i0].id == id2;
                assert(i0 != k);
                assert(ms1[i0] == ms0[i0]);
                lemma_count_at(*old(self), i0);
                lemma_count_at(*final(self), i0);
            }
            // the chosen pair is least
            assert forall|id2: u16| old(self).contains_id(id2) implies pair_le(
                (old(self).count_of(id), id),
                (old(self).count_of(id2), id2),
            ) by {
                let i0 = choose|i0: int| 0 <= i0 < ms0.len() && ms0[i0].id == id2;
                lemma_count_at(*old(self), i0);
                assert(cs0.contains((ms0[i0].tasks_count, ms0[i0].id)));
                let j0 = choose|j0: int|
                    0 <= j0 < cs0.len() && cs0[j0] == (ms0[i0].tasks_count, ms0[i0].id);
                if j0 > 0 {
                    assert(pair_lt(cs0[0], cs0[j0]));
                }
            }
            // one minimum count was incremented
            let counts0 = old(self).counts_seq();
            let counts1 = final(self).counts_seq();
            assert(counts0[k as int] == c as nat);
            assert forall|k2: int| 0 <= k2 < counts0.len() implies counts0[k as int]
                <= counts0[k2] by {
                assert(cs0.contains((ms0[k2].tasks_count, ms0[k2].id)));
                let j0 = choose|j0: int|
                    0 <= j0 < cs0.len() && cs0[j0] == (ms0[k2].tasks_count, ms0[k2].id);
                if j0 > 0 {
                    assert(pair_lt(cs0[0], cs0[j0]));
                }
            }
            assert(is_min_index(counts0, k as int));
            assert(counts1 =~= counts0.update(k as int, (counts0[k as int] + 1) as nat));
        }
        Ok(id)
    }
}

impl Service {
    /// Forwards a message to every registered worker's outbound queue. One
    /// worker whose queue is closed does not stop delivery to the others.
    pub fn broadcast(&self, msg: &ServerToMachine) {
        let n = self.machines.len();
        let mut i: usize = 0;
        while i < n
            invariant
                n == self.machines@.len(),
                0 <= i <= n,
            decreases n - i,
        {
            let _open = channel_send(&self.machines[i].ws_sender, msg);
            i = i + 1;
        }
    }

    /// Forwards a test bundle to every registered worker.
    pub fn broadcast_update_tests(&self, data: &Vec<u8>) {
        let msg = ServerToMachine::UpdateTests(data.clone());
        self.broadcast(&msg);
    }
}

/// Law (worker churn): once a worker is deregistered its id is off the
/// registry, and as long as it stays off, the dispatcher cannot select it:
/// the dispatcher's choice is always the id of a registered worker. That
/// the remaining index stays intact is `remove_machine`'s own contract: it
/// keeps `wf` and every other worker's count.
pub proof fn lemma_worker_churn(s: Service, id: u16)
    requires
        s.wf(),
        !s.contains_id(id),
    ensures
        s.dispatch_choice() != Some(id),
        s.dispatch_choice() matches Some(chosen) ==> s.contains_id(chosen),
{
    if s.machines_tasks_counters@.len() > 0 {
        assert(entry_has_machine(s.machines@, s.machines_tasks_counters@[0]));
    }
}

/// How many positions of `s` hold the value `v`.
pub open spec fn count_eq(s: Seq<nat>, v: nat) -> nat
    decreases s.len(),
{
    if s.len() == 0 {
        0
    } else {
        (count_eq(s.drop_last(), v) + if s.last() == v {
            1nat
        } else {
            0nat
        }) as nat
    }
}

/// How `count_eq` relates to the values: it is bounded by the length, it
/// is zero exactly when no position holds `v`, and it is the length
/// exactly when all do.
pub proof fn lemma_count_eq_bounds(s: Seq<nat>, v: nat)
    ensures
        count_eq(s, v) <= s.len(),
        (count_eq(s, v) == 0) <==> (forall|i: int| 0 <= i < s.len() ==> s[i] != v),
        (count_eq(s, v) == s.len()) <==> (forall|i: int| 0 <= i < s.len() ==> s[i] == v),
    decreases s.len(),
{
    if s.len() > 0 {
        lemma_count_eq_bounds(s.drop_last(), v);
        assert(forall|i: int| 0 <= i < s.len() - 1 ==> s.drop_last()[i] == s[i]);
        assert(s[s.len() - 1] == s.last());
    }
}

/// Changing one position changes the count by how the old and new value
/// compare to `v`.
pub proof fn lemma_count_eq_update(s: Seq<nat>, j: int, x: nat, v: nat)
    requires
        0 <= j < s.len(),
    ensures
        count_eq(s.update(j, x), v) + (if s[j] == v {
            1nat
        } else {
            0nat
        }) == count_eq(s, v) + (if x == v {
            1nat
        } else {
            0nat
        }),
    decreases s.len(),
{
    let s1 = s.update(j, x);
    if j == s.len() - 1 {
        assert(s1.drop_last() =~= s.drop_last());
        assert(s1.last() == x);
    } else {
        lemma_count_eq_update(s.drop_last(), j, x, v);
        assert(s1.drop_last() =~= s.drop_last().update(j, x));
        assert(s1.last() == s.last());
    }
}

/// After `k` fair dispatches to an initially idle pool, every worker holds
/// either `k / n` or `k / n + 1` tasks, and exactly `k % n` workers hold
/// the larger number (`n` being the pool size).
pub open spec fn balanced(s: Seq<nat>, k: nat) -> bool {
    let n = s.len();
    &&& n > 0
    &&& forall|i: int| 0 <= i < s.len() ==> s[i] == k / n || (k % n != 0 && s[i] == k / n + 1)
    &&& count_eq(s, k / n + 1) == k % n
}

/// The least number of tasks per worker that can cover `k` tasks on `n`
/// workers: `k / n`, rounded up.
pub open spec fn ceil_div(k: nat, n: nat) -> nat {
    if k % n == 0 {
        k / n
    } else {
        k / n + 1
    }
}

/// Law (dispatch fairness, start): an idle pool is balanced at zero
/// dispatches.
pub proof fn lemma_balanced_start(n: nat)
    requires
        n > 0,
    ensures
        balanced(Seq::new(n, |i: int| 0nat), 0),
{
    let s = Seq::new(n, |i: int| 0nat);
    vstd::arithmetic::div_mod::lemma_small_mod(0, n);
    assert(0nat / n == 0) by (nonlinear_arith)
        requires
            n > 0,
    ;
    lemma_count_eq_bounds(s, 1);
}

/// Law (dispatch fairness, step): dispatching to a worker with the least
/// count keeps the pool balanced.
pub proof fn lemma_dispatch_balances(s: Seq<nat>, j: int, k: nat)
    requires
        balanced(s, k),
        is_min_index(s, j),
    ensures
        balanced(s.update(j, (s[j] + 1) as nat), k + 1),
{
    let n = s.len();
    let low = k / n;
    let r = k % n;
    vstd::arithmetic::div_mod::lemma_fundamental_div_mod(k as int, n as int);
    vstd::arithmetic::div_mod::lemma_mod_bound(k as int, n as int);
    lemma_count_eq_bounds(s, low + 1);
    if r == 0 {
        assert(s[j] == low);
    } else {
        if forall|i: int| 0 <= i < s.len() ==> s[i] == low + 1 {
            assert(count_eq(s, low + 1) == n);
            assert(false);
        }
        let w = choose|i: int| 0 <= i < s.len() && !(s[i] == low + 1);
        assert(s[w] == low);
        assert(s[j] <= s[w]);
        assert(s[j] == low);
    }
    let s1 = s.update(j, (s[j] + 1) as nat);
    lemma_count_eq_update(s, j, low + 1, low + 1);
    if r + 1 < n {
        vstd::arithmetic::div_mod::lemma_fundamental_div_mod_converse(
            (k + 1) as int,
            n as int,
            low as int,
            (r + 1) as int,
        );
        assert((k + 1) as nat / n == low && (k + 1) as nat % n == r + 1);
    } else {
        assert(r + 1 == n);
        assert(n * (low + 1) == n * low + n) by (nonlinear_arith);
        vstd::arithmetic::div_mod::lemma_fundamental_div_mod_converse(
            (k + 1) as int,
            n as int,
            (low + 1) as int,
            0,
        );
        assert((k + 1) as nat / n == low + 1 && (k + 1) as nat % n == 0);
        assert(count_eq(s1, low + 1) == n);
        lemma_count_eq_bounds(s1, low + 1);
        assert(forall|i: int| 0 <= i < s1.len() ==> s1[i] == low + 1);
        lemma_count_eq_bounds(s1, low + 2);
        assert(count_eq(s1, low + 2) == 0);
    }
}

/// Law (dispatch fairness, bound): in a balanced pool after `k`
/// dispatches, no worker holds more than `k / n` tasks rounded up, and
/// some worker holds exactly that many.
pub proof fn lemma_balanced_max(s: Seq<nat>, k: nat)
    requires
        balanced(s, k),
    ensures
        forall|i: int| 0 <= i < s.len() ==> s[i] <= ceil_div(k, s.len()),
        exists|i: int| 0 <= i < s.len() && s[i] == ceil_div(k, s.len()),
    decreases 0nat,
{
    let n = s.len();
    lemma_count_eq_bounds(s, k / n + 1);
    if k % n == 0 {
        assert(s[0] == k / n);
    } else {
        if forall|i: int| 0 <= i < s.len() ==> s[i] != k / n + 1 {
            assert(count_eq(s, k / n + 1) == 0);
            assert(false);
        }
        let w = choose|i: int| 0 <= i < s.len() && !(s[i] != k / n + 1);
        assert(s[w] == ceil_div(k, n));
    }
}

/// The pool's counts after a run of dispatches, each raising the count at
/// the position `picks` names for it.
pub open spec fn after_dispatches(s: Seq<nat>, picks: Seq<int>) -> Seq<nat>
    decreases picks.len(),
{
    if picks.len() == 0 {
        s
    } else {
        after_dispatches(s.update(picks[0], (s[picks[0]] + 1) as nat), picks.skip(1))
    }
}

/// Every dispatch of the run picks a position whose count is least at that
/// moment — which is what the dispatcher's contract guarantees of each
/// call.
pub open spec fn fair_picks(s: Seq<nat>, picks: Seq<int>) -> bool
    decreases picks.len(),
{
    if picks.len() == 0 {
        true
    } else {
        is_min_index(s, picks[0]) && fair_picks(
            s.update(picks[0], (s[picks[0]] + 1) as nat),
            picks.skip(1),
        )
    }
}

/// A balanced pool stays balanced over any fair run.
proof fn lemma_fair_run(s: Seq<nat>, picks: Seq<int>, k: nat)
    requires
        balanced(s, k),
        fair_picks(s, picks),
    ensures
        balanced(after_dispatches(s, picks), (k + picks.len()) as nat),
        after_dispatches(s, picks).len() == s.len(),
    decreases picks.len(),
{
    if picks.len() > 0 {
        lemma_dispatch_balances(s, picks[0], k);
        lemma_fair_run(s.update(picks[0], (s[picks[0]] + 1) as nat), picks.skip(1), k + 1);
    }
}

/// Law (dispatch fairness): after `k` fair dispatches — each to a worker
/// with the least current count, as `dispatch` ensures — on an initially
/// idle pool of `n` workers and with no completions in between, no worker
/// holds more than `k / n` tasks rounded up, and some worker holds exactly
/// that many.
pub proof fn lemma_dispatch_fairness(n: nat, picks: Seq<int>)
    requires
        n > 0,
        fair_picks(Seq::new(n, |i: int| 0nat), picks),
    ensures
        ({
            let counts = after_dispatches(Seq::new(n, |i: int| 0nat), picks);
            &&& forall|i: int| 0 <= i < counts.len() ==> counts[i] <= ceil_div(picks.len(), n)
            &&& exists|i: int| 0 <= i < counts.len() && counts[i] == ceil_div(picks.len(), n)
        }),
{
    lemma_balanced_start(n);
    lemma_fair_run(Seq::new(n, |i: int| 0nat), picks, 0);
    lemma_balanced_max(after_dispatches(Seq::new(n, |i: int| 0nat), picks), picks.len());
}

/// Removing an element maps the later indices down by one.
proof fn lemma_seq_remove_maps(s: Seq<Machine>, k: int, i: int)
    requires
        0 <= k < s.len(),
        0 <= i < s.len() - 1,
    ensures
        s.remove(k)[i] == (if i < k {
            s[i]
        } else {
            s[i + 1]
        }),
{
    s.remove_ensures(k);
}

/// Removing an entry maps the later indices down by one.
proof fn lemma_counter_remove_maps(s: Seq<(usize, u16)>, k: int, i: int)
    requires
        0 <= k < s.len(),
        0 <= i < s.len() - 1,
    ensures
        s.remove(k)[i] == (if i < k {
            s[i]
        } else {
            s[i + 1]
        }),
{
    s.remove_ensures(k);
}

/// With unique worker ids, the count on file for a worker's id is that
/// worker's count.
proof fn lemma_count_at(s: Service, i: int)
    requires
        0 <= i < s.machines@.len(),
        forall|a: int, b: int| 0 <= a < b < s.machines@.len() ==> s.machines@[a].id != s.machines@[b].id,
    ensures
        s.contains_id(s.machines@[i].id),
        s.count_of(s.machines@[i].id) == s.machines@[i].tasks_count,
{
    let id = s.machines@[i].id;
    let j = choose|j: int| 0 <= j < s.machines@.len() && s.machines@[j].id == id;
    if j != i {
        if j < i {
            assert(s.machines@[j].id != s.machines@[i].id);
        } else {
            assert(s.machines@[i].id != s.machines@[j].id);
        }
    }
}

/// Inserts an entry into the ordered load index, keeping it strictly
/// ordered.
fn index_insert(v: &mut Vec<(usize, u16)>, e: (usize, u16))
    requires
        sorted(old(v)@),
        !old(v)@.contains(e),
    ensures
        sorted(final(v)@),
        final(v)@.len() == old(v)@.len() + 1,
        forall|x: (usize, u16)| final(v)@.contains(x) <==> old(v)@.contains(x) || x == e,
{
    let ghost s0 = v@;
    let n = v.len();
    let mut p: usize = 0;
    while p < n
        invariant
            v@ == s0,
            n == s0.len(),
            0 <= p <= n,
            forall|a: int| 0 <= a < p ==> pair_lt(s0[a], e),
            !s0.contains(e),
        ensures
            v@ == s0,
            0 <= p <= n,
            forall|a: int| 0 <= a < p ==> pair_lt(s0[a], e),
            p < n ==> pair_lt(e, s0[p as int]),
        decreases n - p,
    {
        let (c, id) = v[p];
        if e.0 < c || (e.0 == c && e.1 < id) {
            break ;
        }
        proof {
            assert(s0[p as int] != e);
            assert(pair_lt(s0[p as int], e));
        }
        p = p + 1;
    }
    v.insert(p, e);
    proof {
        let s1 = v@;
        s0.insert_ensures(p as int, e);
        assert forall|a: int, b: int| 0 <= a < b < s1.len() implies pair_lt(s1[a], s1[b]) by {
            if a == p {
                assert(s1[a] == e);
                assert(s1[(b - 1) + 1] == s0[b - 1]);
                assert(pair_lt(e, s0[p as int]));
                if b - 1 > p {
                    assert(pair_lt(s0[p as int], s0[b - 1]));
                }
            } else if b == p {
                assert(s1[b] == e);
                assert(s1[a] == s0[a]);
                assert(pair_lt(s0[a], e));
            } else {
                let ma = if a < p {
                    a
                } else {
                    a - 1
                };
                let mb = if b < p {
                    b
                } else {
                    b - 1
                };
                if a < p {
                    assert(s1[a] == s0[a]);
                } else {
                    assert(s1[(a - 1) + 1] == s0[a - 1]);
                }
                if b < p {
                    assert(s1[b] == s0[b]);
                } else {
                    assert(s1[(b - 1) + 1] == s0[b - 1]);
                }
                assert(pair_lt(s0[ma], s0[mb]));
            }
        }
        assert forall|x: (usize, u16)| s1.contains(x) implies s0.contains(x) || x == e by {
            let j = choose|j: int| 0 <= j < s1.len() && s1[j] == x;
            if j < p {
                assert(s1[j] == s0[j]);
            } else if j > p {
                assert(s1[(j - 1) + 1] == s0[j - 1]);
            }
        }
        assert forall|x: (usize, u16)| s0.contains(x) || x == e implies s1.contains(x) by {
            if s0.contains(x) {
                let j = choose|j: int| 0 <= j < s0.len() && s0[j] == x;
                if j < p {
                    assert(s1[j] == s0[j]);
                } else {
                    assert(s1[j + 1] == s0[j]);
                }
            } else {
                assert(s1[p as int] == e);
            }
        }
    }
}

} // verus!
