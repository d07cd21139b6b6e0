//! Exclusive locks on devices, each held by one task.
use crate::text::{append_str, str_eq};
use vstd::prelude::*;

verus! {

/// Why a lock could not be released.
pub open spec fn release_error(m: Map<Seq<char>, Seq<char>>, device: Seq<char>, task: Seq<char>) -> Seq<char> {
    if m.contains_key(device) {
        "Cannot release lock: device "@ + device + " is owned by "@ + m[device] + ", not "@ + task
    } else {
        "Cannot release lock: device "@ + device + " is not locked"@
    }
}

/// Locks after `task` asks for `device`, and whether it holds the lock.
pub open spec fn acquire_spec(m: Map<Seq<char>, Seq<char>>, device: Seq<char>, task: Seq<char>) -> (Map<Seq<char>, Seq<char>>, bool) {
    if m.contains_key(device) {
        (m, m[device] == task)
    } else {
        (m.insert(device, task), true)
    }
}

/// Locks after `task` releases `device`, and whether it could.
pub open spec fn release_spec(m: Map<Seq<char>, Seq<char>>, device: Seq<char>, task: Seq<char>) -> (Map<Seq<char>, Seq<char>>, bool) {
    if m.contains_key(device) && m[device] == task {
        (m.remove(device), true)
    } else {
        (m, false)
    }
}

/// The devices that are locked and the task that holds each.
pub struct ResourceLockManager {
    locked_devices: Vec<(String, String)>,
}

/// The map of a list of distinct device/task pairs.
pub open spec fn pairs_map(s: Seq<(String, String)>) -> Map<Seq<char>, Seq<char>> {
    Map::new(
        |d: Seq<char>| exists|i: int| 0 <= i < s.len() && #[trigger] s[i].0@ == d,
        |d: Seq<char>| s[choose|i: int| 0 <= i < s.len() && #[trigger] s[i].0@ == d].1@,
    )
}

/// No device appears twice.
pub open spec fn distinct_devices(s: Seq<(String, String)>) -> bool {
    forall|a: int, b: int| 0 <= a < s.len() && 0 <= b < s.len() && a != b ==> #[trigger] s[a].0@ != #[trigger] s[b].0@
}

proof fn lemma_pairs_map_at(s: Seq<(String, String)>, i: int)
    requires
        distinct_devices(s),
        0 <= i < s.len(),
    ensures
        pairs_map(s).contains_key(s[i].0@),
        pairs_map(s)[s[i].0@] == s[i].1@,
{
    let d = s[i].0@;
    assert(exists|j: int| 0 <= j < s.len() && #[trigger] s[j].0@ == d);
    let j = choose|j: int| 0 <= j < s.len() && #[trigger] s[j].0@ == d;
    assert(j == i);
}

impl View for ResourceLockManager {
    type V = Map<Seq<char>, Seq<char>>;

    closed spec fn view(&self) -> Map<Seq<char>, Seq<char>> {
        pairs_map(self.locked_devices@)
    }
}

impl ResourceLockManager {
    #[verifier::type_invariant]
    spec fn inv(&self) -> bool {
        distinct_devices(self.locked_devices@)
    }

    /// No device is locked.
    pub fn new() -> (m: Self)
        ensures
            m@ == Map::<Seq<char>, Seq<char>>::empty(),
    {
        let m = ResourceLockManager { locked_devices: Vec::new() };
        assert(m@ =~= Map::<Seq<char>, Seq<char>>::empty());
        m
    }

    /// Position of `device` among the locks.
    fn position(&self, device: &str) -> (r: Option<usize>)
        ensures
            match r {
                Some(i) => i < self.locked_devices.len() && self.locked_devices@[i as int].0@ == device@,
                None => forall|i: int| 0 <= i < self.locked_devices.len() ==> #[trigger] self.locked_devices@[i].0@ != device@,
            },
    {
        let mut i: usize = 0;
        while i < self.locked_devices.len()
            invariant
                i <= self.locked_devices.len(),
                forall|k: int| 0 <= k < i ==> #[trigger] self.locked_devices@[k].0@ != device@,
            decreases self.locked_devices.len() - i,
        {
            if str_eq(self.locked_devices[i].0.as_str(), device) {
                return Some(i);
            }
            i += 1;
        }
        None
    }

    /// Locks `device` for `task` when it is free. Reports whether `task`
    /// holds the lock afterwards; never fails.
    pub fn acquire_lock(&mut self, device_id: &str, task_id: &str) -> (r: Result<bool, String>)
        ensures
            r is Ok,
            (final(self)@, r->Ok_0) == acquire_spec(old(self)@, device_id@, task_id@),
    {
        proof {
            use_type_invariant(&*self);
        }
        let ghost before = self.locked_devices@;
        match self.position(device_id) {
            Some(i) => {
                proof {
                    lemma_pairs_map_at(before, i as int);
                }
                let holds = str_eq(self.locked_devices[i].1.as_str(), task_id);
                Ok(holds)
            },
            None => {
                let mut locks: Vec<(String, String)> = Vec::new();
                std::mem::swap(&mut locks, &mut self.locked_devices);
                let mut d = String::new();
                append_str(&mut d, device_id);
                let mut t = String::new();
                append_str(&mut t, task_id);
                locks.push((d, t));
                proof {
                    let after = locks@;
                    assert(after =~= before.push((d, t)));
                    assert forall|a: int, b: int| 0 <= a < after.len() && 0 <= b < after.len() && a != b implies #[trigger] after[a].0@ != #[trigger] after[b].0@ by {
                        if a < before.len() && b < before.len() {
                            assert(after[a] == before[a] && after[b] == before[b]);
                        } else if a < before.len() {
                            assert(after[a] == before[a]);
                        } else {
                            assert(after[b] == before[b]);
                        }
                    }
                    assert(!pairs_map(before).contains_key(device_id@));
                    assert forall|k: Seq<char>| #[trigger] pairs_map(after).contains_key(k) <==> pairs_map(before).insert(device_id@, task_id@).contains_key(k) by {
                        if pairs_map(before).contains_key(k) {
                            let j = choose|j: int| 0 <= j < before.len() && #[trigger] before[j].0@ == k;
                            assert(after[j] == before[j]);
                        }
                        if k == device_id@ {
                            assert(after[before.len() as int].0@ == k);
                        }
                        if pairs_map(after).contains_key(k) {
                            let j = choose|j: int| 0 <= j < after.len() && #[trigger] after[j].0@ == k;
                            if j < before.len() {
                                assert(before[j] == after[j]);
                            }
                        }
                    }
                    assert forall|k: Seq<char>| #[trigger] pairs_map(after).contains_key(k) implies pairs_map(after)[k] == pairs_map(before).insert(device_id@, task_id@)[k] by {
                        let j = choose|j: int| 0 <= j < after.len() && #[trigger] after[j].0@ == k;
                        lemma_pairs_map_at(after, j);
                        if j < before.len() {
                            assert(before[j] == after[j]);
                            lemma_pairs_map_at(before, j);
                        }
                    }
                    assert(pairs_map(after) =~= pairs_map(before).insert(device_id@, task_id@));
                }
                self.locked_devices = locks;
                Ok(true)
            },
        }
    }

    /// Releases `device` when `task` holds it; otherwise fails with a
    /// message that says who holds it, or that it is not locked.
    pub fn release_lock(&mut self, device_id: &str, task_id: &str) -> (r: Result<(), String>)
        ensures
            final(self)@ == release_spec(old(self)@, device_id@, task_id@).0,
            r is Ok == release_spec(old(self)@, device_id@, task_id@).1,
            r is Err ==> r->Err_0@ == release_error(old(self)@, device_id@, task_id@),
    {
        proof {
            use_type_invariant(&*self);
        }
        let ghost before = self.locked_devices@;
        match self.position(device_id) {
            Some(i) => {
                proof {
                    lemma_pairs_map_at(before, i as int);
                }
                if str_eq(self.locked_devices[i].1.as_str(), task_id) {
                    let mut locks: Vec<(String, String)> = Vec::new();
                    std::mem::swap(&mut locks, &mut self.locked_devices);
                    locks.remove(i);
                    proof {
                        let after = locks@;
                        before.remove_ensures(i as int);
                        assert forall|a: int, b: int| 0 <= a < after.len() && 0 <= b < after.len() && a != b implies #[trigger] after[a].0@ != #[trigger] after[b].0@ by {
                            let a2 = if a < i { a } else { a + 1 };
                            let b2 = if b < i { b } else { b + 1 };
                            assert(after[a] == before[a2] && after[b] == before[b2]);
                        }
                        assert forall|k: Seq<char>| #[trigger] pairs_map(after).contains_key(k) <==> pairs_map(before).remove(device_id@).contains_key(k) by {
                            if pairs_map(after).contains_key(k) {
                                let j = choose|j: int| 0 <= j < after.len() && #[trigger] after[j].0@ == k;
                                let j2 = if j < i { j } else { j + 1 };
                                assert(after[j] == before[j2]);
                            }
                            if pairs_map(before).remove(device_id@).contains_key(k) {
                                let j = choose|j: int| 0 <= j < before.len() && #[trigger] before[j].0@ == k;
                                assert(j != i);
                                let j2 = if j < i { j } else { j - 1 };
                                assert(after[j2] == before[j]);
                            }
                        }
                        assert forall|k: Seq<char>| #[trigger] pairs_map(after).contains_key(k) implies pairs_map(after)[k] == pairs_map(before).remove(device_id@)[k] by {
                            let j = choose|j: int| 0 <= j < after.len() && #[trigger] after[j].0@ == k;
                            let j2 = if j < i { j } else { j + 1 };
                            assert(after[j] == before[j2]);
                            lemma_pairs_map_at(after, j);
                            lemma_pairs_map_at(before, j2);
                        }
                        assert(pairs_map(after) =~= pairs_map(before).remove(device_id@));
                    }
                    self.locked_devices = locks;
                    Ok(())
                } else {
                    let mut m = String::new();
                    append_str(&mut m, "Cannot release lock: device ");
                    append_str(&mut m, device_id);
                    append_str(&mut m, " is owned by ");
                    append_str(&mut m, self.locked_devices[i].1.as_str());
                    append_str(&mut m, ", not ");
                    append_str(&mut m, task_id);
                    Err(m)
                }
            },
            None => {
                proof {
                    assert(!pairs_map(before).contains_key(device_id@));
                }
                let mut m = String::new();
                append_str(&mut m, "Cannot release lock: device ");
                append_str(&mut m, device_id);
                append_str(&mut m, " is not locked");
                Err(m)
            },
        }
    }

    /// Whether `device` is locked.
    pub fn is_locked(&self, device_id: &str) -> (b: bool)
        ensures
            b == self@.contains_key(device_id@),
    {
        proof {
            use_type_invariant(self);
        }
        match self.position(device_id) {
            Some(i) => {
                proof {
                    lemma_pairs_map_at(self.locked_devices@, i as int);
                }
                true
            },
            None => false,
        }
    }

    /// The task that holds `device`, if any.
    pub fn get_lock_owner(&self, device_id: &str) -> (r: Option<String>)
        ensures
            match r {
                Some(t) => self@.contains_key(device_id@) && self@[device_id@] == t@,
                None => !self@.contains_key(device_id@),
            },
    {
        proof {
            use_type_invariant(self);
        }
        match self.position(device_id) {
            Some(i) => {
                proof {
                    lemma_pairs_map_at(self.locked_devices@, i as int);
                }
                Some(self.locked_devices[i].1.clone())
            },
            None => None,
        }
    }

    /// Releases every lock.
    pub fn clear_all(&mut self)
        ensures
            final(self)@ == Map::<Seq<char>, Seq<char>>::empty(),
    {
        self.locked_devices = Vec::new();
        assert(self@ =~= Map::<Seq<char>, Seq<char>>::empty());
    }
}

impl Default for ResourceLockManager {
    fn default() -> (m: Self)
        ensures
            m@ == Map::<Seq<char>, Seq<char>>::empty(),
    {
        ResourceLockManager::new()
    }
}

/// Acquiring a free device and then releasing it with the same task gives
/// back the locks as they were.
pub proof fn lemma_release_undoes_acquire(m: Map<Seq<char>, Seq<char>>, device: Seq<char>, task: Seq<char>)
    requires
        !m.contains_key(device),
    ensures
        acquire_spec(m, device, task).1,
        release_spec(acquire_spec(m, device, task).0, device, task) == (m, true),
{
    assert(m.insert(device, task).remove(device) =~= m);
}

/// A device held by one task cannot be taken by another: the request is
/// answered with `false` and nothing changes.
pub proof fn lemma_held_lock_is_exclusive(m: Map<Seq<char>, Seq<char>>, device: Seq<char>, holder: Seq<char>, other: Seq<char>)
    requires
        m.contains_key(device),
        m[device] == holder,
        holder != other,
    ensures
        acquire_spec(m, device, other) == (m, false),
        release_spec(m, device, other) == (m, false),
{
}

/// After a successful acquisition the task holds the device, and a
/// repeated request by the same task succeeds without change.
pub proof fn lemma_acquire_then_owner(m: Map<Seq<char>, Seq<char>>, device: Seq<char>, task: Seq<char>)
    requires
        acquire_spec(m, device, task).1,
    ensures
        acquire_spec(m, device, task).0.contains_key(device),
        acquire_spec(m, device, task).0[device] == task,
        acquire_spec(acquire_spec(m, device, task).0, device, task) == (acquire_spec(m, device, task).0, true),
{
}

} // verus!
