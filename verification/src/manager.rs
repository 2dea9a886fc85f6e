use vstd::prelude::*;

use crate::commands::Command;
use crate::commands::LifecycleOp;

verus! {

/// A registered hardware resource: the scheduler calls `periodic` once per
/// tick, before any command runs.
pub trait Subsystem {
    fn periodic(&self) {
    }
}

/// Where a command lives: a permanent per-subsystem default slot, or a
/// transient slot that is recycled once its command ends.
#[derive(Debug, Clone, Copy, PartialEq, Eq, Hash, Structural)]
pub enum CommandIndex {
    DefaultCommand(usize),
    Command(usize),
}

/// What a condition asks the conditional scheduler to do this tick.
#[derive(Debug, Clone, Copy, PartialEq, Eq, Structural)]
pub enum ConditionResponse {
    Start,
    Continue,
    Stop,
    NoChange,
}

/// A stateful predicate driving the conditional scheduler.
pub trait Condition {
    fn get_condition(&mut self) -> ConditionResponse;
}

/// A factory handing the conditional scheduler a fresh command to start.
pub trait BoxedFn {
    fn call(&self) -> Command;
}

/// One lifecycle call that a tick made on a slot; the contracts of `run`
/// are stated over the sequence of these.
pub enum RunEvent {
    Init(CommandIndex),
    Periodic(CommandIndex),
    End(CommandIndex, bool),
}

/// The ownership table: association list from subsystem id to owning slot,
/// with pairwise distinct keys.
pub open spec fn table_unique(t: Seq<(u8, CommandIndex)>) -> bool {
    forall|j1: int, j2: int| 0 <= j1 < j2 < t.len() ==> t[j1].0 != t[j2].0
}

pub open spec fn table_has(t: Seq<(u8, CommandIndex)>, k: u8) -> bool {
    exists|j: int| 0 <= j < t.len() && t[j].0 == k
}

pub open spec fn table_idx(t: Seq<(u8, CommandIndex)>, k: u8) -> int {
    choose|j: int| 0 <= j < t.len() && t[j].0 == k
}

pub open spec fn lookup(t: Seq<(u8, CommandIndex)>, k: u8) -> Option<CommandIndex> {
    if table_has(t, k) {
        Some(t[table_idx(t, k)].1)
    } else {
        None
    }
}

#[verifier::loop_isolation(false)]
fn map_find(t: &Vec<(u8, CommandIndex)>, k: u8) -> (r: Option<CommandIndex>)
    requires
        table_unique(t@),
    ensures
        r == lookup(t@, k),
{
    let mut j: usize = 0;
    while j < t.len()
        invariant
            j <= t@.len(),
            forall|jj: int| 0 <= jj < j ==> t@[jj].0 != k,
        decreases t@.len() - j,
    {
        if t[j].0 == k {
            proof {
                lemma_table_idx_is(t@, k, j as int);
            }
            return Some(t[j].1);
        }
        j += 1;
    }
    proof {
        assert(!table_has(t@, k));
    }
    None
}

/// With pairwise-distinct keys, the index found for `k` is the only one.
proof fn lemma_table_idx_is(t: Seq<(u8, CommandIndex)>, k: u8, j: int)
    requires
        table_unique(t),
        0 <= j < t.len(),
        t[j].0 == k,
    ensures
        table_has(t, k),
        table_idx(t, k) == j,
        lookup(t, k) == Some(t[j].1),
{
    assert(table_has(t, k));
    let j2 = table_idx(t, k);
    assert(0 <= j2 < t.len() && t[j2].0 == k);
    if j2 < j {
        assert(t[j2].0 != t[j].0);
        assert(false);
    }
    if j2 > j {
        assert(t[j].0 != t[j2].0);
        assert(false);
    }
}

/// Two tables with pointwise-equal keys agree on key uniqueness and key
/// membership.
proof fn lemma_same_keys(a: Seq<(u8, CommandIndex)>, b: Seq<(u8, CommandIndex)>)
    requires
        a.len() == b.len(),
        forall|j: int| 0 <= j < a.len() ==> a[j].0 == b[j].0,
        table_unique(a),
    ensures
        table_unique(b),
        forall|k: u8| table_has(a, k) == table_has(b, k),
{
    assert forall|j1: int, j2: int| 0 <= j1 < j2 < b.len() implies b[j1].0 != b[j2].0 by {
        assert(a[j1].0 != a[j2].0);
    }
    assert forall|k: u8| table_has(a, k) == table_has(b, k) by {
        if table_has(a, k) {
            let j = choose|j: int| 0 <= j < a.len() && a[j].0 == k;
            assert(b[j].0 == k);
            assert(table_has(b, k));
        }
        if table_has(b, k) {
            let j = choose|j: int| 0 <= j < b.len() && b[j].0 == k;
            assert(a[j].0 == k);
            assert(table_has(a, k));
        }
    }
}

#[verifier::loop_isolation(false)]
fn map_insert(t: &mut Vec<(u8, CommandIndex)>, k: u8, v: CommandIndex)
    requires
        table_unique(old(t)@),
    ensures
        table_unique(final(t)@),
        lookup(final(t)@, k) == Some(v),
        forall|k2: u8| k2 != k ==> lookup(final(t)@, k2) == lookup(old(t)@, k2),
        forall|j: int| 0 <= j < final(t)@.len()
            ==> final(t)@[j] == (k, v) || old(t)@.contains(#[trigger] final(t)@[j]),
        final(t)@.len() <= old(t)@.len() + 1,
{
    let ghost t0 = t@;
    let mut j: usize = 0;
    while j < t.len()
        invariant
            t@ == t0,
            j <= t0.len(),
            forall|jj: int| 0 <= jj < j ==> t0[jj].0 != k,
        decreases t0.len() - j,
    {
        if t[j].0 == k {
            t[j] = (k, v);
            proof {
                assert(t@ == t0.update(j as int, (k, v)));
                assert forall|jj: int| 0 <= jj < t@.len() implies t@[jj].0 == t0[jj].0 by {
                    if jj != j {
                        assert(t@[jj] == t0[jj]);
                    }
                }
                lemma_same_keys(t0, t@);
                lemma_table_idx_is(t@, k, j as int);
                assert forall|k2: u8| k2 != k implies lookup(t@, k2) == lookup(t0, k2) by {
                    if table_has(t0, k2) {
                        let ja = table_idx(t0, k2);
                        assert(0 <= ja < t0.len() && t0[ja].0 == k2);
                        assert(ja != j);
                        assert(t@[ja] == t0[ja]);
                        lemma_table_idx_is(t@, k2, ja);
                        lemma_table_idx_is(t0, k2, ja);
                    }
                }
                assert forall|jj: int| 0 <= jj < t@.len()
                    implies t@[jj] == (k, v) || t0.contains(t@[jj]) by {
                    if jj != j {
                        assert(t@[jj] == t0[jj]);
                    }
                }
            }
            return ;
        }
        j += 1;
    }
    t.push((k, v));
    proof {
        assert(t@ == t0.push((k, v)));
        assert(forall|jj: int| 0 <= jj < t0.len() ==> t@[jj] == t0[jj]);
        assert(t@[t0.len() as int] == (k, v));
        assert forall|j1: int, j2: int| 0 <= j1 < j2 < t@.len() implies t@[j1].0 != t@[j2].0 by {
            if j2 < t0.len() {
                assert(t0[j1].0 != t0[j2].0);
            } else {
                assert(t@[j2].0 == k);
                assert(t0[j1].0 != k);
            }
        }
        lemma_table_idx_is(t@, k, t0.len() as int);
        assert forall|k2: u8| k2 != k implies lookup(t@, k2) == lookup(t0, k2) by {
            if table_has(t0, k2) {
                let ja = table_idx(t0, k2);
                assert(0 <= ja < t0.len() && t0[ja].0 == k2);
                assert(t@[ja] == t0[ja]);
                lemma_table_idx_is(t@, k2, ja);
                lemma_table_idx_is(t0, k2, ja);
            } else {
                if table_has(t@, k2) {
                    let jb = table_idx(t@, k2);
                    assert(0 <= jb < t@.len() && t@[jb].0 == k2);
                    assert(jb < t0.len());
                    assert(t0[jb].0 == k2);
                    assert(table_has(t0, k2));
                }
            }
        }
        assert forall|jj: int| 0 <= jj < t@.len()
            implies t@[jj] == (k, v) || t0.contains(t@[jj]) by {
            if jj < t0.len() {
                assert(t@[jj] == t0[jj]);
            }
        }
    }
}

#[verifier::loop_isolation(false)]
fn map_remove(t: &mut Vec<(u8, CommandIndex)>, k: u8)
    requires
        table_unique(old(t)@),
    ensures
        table_unique(final(t)@),
        lookup(final(t)@, k) == None::<CommandIndex>,
        forall|k2: u8| k2 != k ==> lookup(final(t)@, k2) == lookup(old(t)@, k2),
        forall|j: int| 0 <= j < final(t)@.len()
            ==> old(t)@.contains(#[trigger] final(t)@[j]),
        final(t)@.len() <= old(t)@.len(),
{
    let ghost t0 = t@;
    let mut j: usize = 0;
    while j < t.len()
        invariant
            t@ == t0,
            j <= t0.len(),
            forall|jj: int| 0 <= jj < j ==> t0[jj].0 != k,
        decreases t0.len() - j,
    {
        if t[j].0 == k {
            t.remove(j);
            proof {
                assert(t@ == t0.remove(j as int));
                assert(forall|jj: int| 0 <= jj < j ==> t@[jj] == t0[jj]);
                assert(forall|jj: int| j <= jj < t@.len() ==> t@[jj] == t0[jj + 1]);
                assert forall|j1: int, j2: int| 0 <= j1 < j2 < t@.len()
                    implies t@[j1].0 != t@[j2].0 by {
                    let a1: int = if j1 < j { j1 } else { j1 + 1 };
                    let a2: int = if j2 < j { j2 } else { j2 + 1 };
                    assert(t@[j1] == t0[a1]);
                    assert(t@[j2] == t0[a2]);
                    assert(t0[a1].0 != t0[a2].0);
                }
                assert forall|jj: int| 0 <= jj < t@.len() implies t@[jj].0 != k by {
                    if jj >= j {
                        assert(t@[jj] == t0[jj + 1]);
                        assert(t0[jj + 1].0 != t0[j as int].0);
                    }
                }
                assert(!table_has(t@, k));
                assert forall|k2: u8| k2 != k implies lookup(t@, k2) == lookup(t0, k2) by {
                    if table_has(t0, k2) {
                        let ja = table_idx(t0, k2);
                        assert(0 <= ja < t0.len() && t0[ja].0 == k2);
                        lemma_table_idx_is(t0, k2, ja);
                        assert(ja != j);
                        let jb: int = if ja < j { ja } else { ja - 1 };
                        assert(t@[jb] == t0[ja]);
                        lemma_table_idx_is(t@, k2, jb);
                    } else {
                        if table_has(t@, k2) {
                            let jb = table_idx(t@, k2);
                            assert(0 <= jb < t@.len() && t@[jb].0 == k2);
                            let ja: int = if jb < j { jb } else { jb + 1 };
                            assert(t@[jb] == t0[ja]);
                            assert(t0[ja].0 == k2);
                            assert(table_has(t0, k2));
                        }
                    }
                }
                assert forall|jj: int| 0 <= jj < t@.len() implies t0.contains(t@[jj]) by {
                    if jj < j {
                        assert(t@[jj] == t0[jj]);
                    } else {
                        assert(t@[jj] == t0[jj + 1]);
                    }
                }
            }
            return ;
        }
        j += 1;
    }
    proof {
        assert(!table_has(t@, k));
        assert(forall|jj: int| 0 <= jj < t@.len() ==> t0.contains(#[trigger] t@[jj]));
    }
}

/// Holders keeping trait objects one constructor level away from the
/// containers that store them.
struct CondHolder(Box<dyn Condition>);

struct FactoryHolder(Box<dyn BoxedFn>);

struct SubsystemHolder(Box<dyn Subsystem>);

/// A declarative layer of (condition, command factory) pairs; each tick the
/// manager polls every registered scheduler, which may start, keep or stop
/// the command its factory produced.
pub struct ConditionalScheduler {
    conds: Vec<CondHolder>,
    factories: Vec<FactoryHolder>,
    active_commands: Vec<Option<CommandIndex>>,
}

impl ConditionalScheduler {
    /// The bookkeeping vectors walk in lockstep: one factory and one
    /// active-command record per condition.
    pub closed spec fn wf(&self) -> bool {
        &&& self.conds@.len() == self.factories@.len()
        &&& self.conds@.len() == self.active_commands@.len()
    }

    pub closed spec fn pairs(&self) -> int {
        self.conds@.len() as int
    }

    /// The transient slot most recently started for pair `i`, if any is
    /// still recorded.
    pub closed spec fn record_at(&self, i: int) -> Option<CommandIndex> {
        if 0 <= i < self.active_commands@.len() {
            self.active_commands@[i]
        } else {
            None
        }
    }

    pub fn new() -> (r: ConditionalScheduler)
        ensures
            r.wf(),
            r.pairs() == 0,
            forall|i: int| r.record_at(i) is None,
    {
        ConditionalScheduler {
            conds: Vec::new(),
            factories: Vec::new(),
            active_commands: Vec::new(),
        }
    }

    /// Registers a condition together with the factory for the command it
    /// drives.
    pub fn add_cond(&mut self, cond: Box<dyn Condition>, cmd: Box<dyn BoxedFn>)
        requires
            old(self).wf(),
        ensures
            final(self).wf(),
            final(self).pairs() == old(self).pairs() + 1,
            final(self).record_at(old(self).pairs()) is None,
            forall|i: int| i != old(self).pairs()
                ==> final(self).record_at(i) == old(self).record_at(i),
    {
        self.add_cond_entry(CondHolder(cond), FactoryHolder(cmd));
    }

    fn add_cond_entry(&mut self, cond_entry: CondHolder, factory_entry: FactoryHolder)
        requires
            old(self).wf(),
        ensures
            final(self).wf(),
            final(self).pairs() == old(self).pairs() + 1,
            final(self).record_at(old(self).pairs()) is None,
            forall|i: int| i != old(self).pairs()
                ==> final(self).record_at(i) == old(self).record_at(i),
    {
        self.conds.push(cond_entry);
        self.factories.push(factory_entry);
        self.active_commands.push(None);
    }
}

fn push_callback(callbacks: &mut Vec<SubsystemHolder>, entry: SubsystemHolder) {
    callbacks.push(entry);
}

/// Is `i` the lowest free transient slot (or the append position when every
/// slot is occupied)?
pub open spec fn first_free_in(slots: Seq<Option<Command>>, i: int) -> bool {
    &&& 0 <= i <= slots.len()
    &&& forall|j: int| 0 <= j < i ==> (#[trigger] slots[j]) is Some
    &&& (i == slots.len() || slots[i] is None)
}

/// The single process-wide scheduler: owns the registered subsystems, the
/// command slots, the subsystem ownership table and the conditional
/// schedulers, and advances everything once per call to `run`.
pub struct CommandManager {
    periodic_callbacks: Vec<SubsystemHolder>,
    commands: Vec<Option<Command>>,
    cmd_interrupt: Vec<bool>,
    cmd_initialized: Vec<bool>,
    cmd_orphan: Vec<bool>,
    cmd_requirements: Vec<Vec<u8>>,
    default_commands: Vec<Option<Command>>,
    default_interrupt: Vec<bool>,
    default_initialized: Vec<bool>,
    subsystem_to_default: Vec<(u8, CommandIndex)>,
    requirements: Vec<(u8, CommandIndex)>,
    cond_schedulers: Vec<ConditionalScheduler>,
    suid: u8,
}

impl CommandManager {
    /// The scheduler's invariant: the per-slot vectors walk in lockstep,
    /// both tables have pairwise-distinct keys, every table value points at
    /// a live slot, and an ownership entry for a transient slot names one
    /// of the requirements that were recorded when that slot was filled.
    pub closed spec fn wf(&self) -> bool {
        &&& self.commands@.len() == self.cmd_interrupt@.len()
        &&& self.commands@.len() == self.cmd_initialized@.len()
        &&& self.commands@.len() == self.cmd_orphan@.len()
        &&& self.commands@.len() == self.cmd_requirements@.len()
        &&& self.default_commands@.len() == self.default_interrupt@.len()
        &&& self.default_commands@.len() == self.default_initialized@.len()
        &&& table_unique(self.subsystem_to_default@)
        &&& forall|j: int| 0 <= j < self.subsystem_to_default@.len()
            ==> ((#[trigger] self.subsystem_to_default@[j].1)
                matches CommandIndex::DefaultCommand(d) && d < self.default_commands@.len())
        &&& table_unique(self.requirements@)
        &&& forall|j: int| 0 <= j < self.requirements@.len()
            ==> match (#[trigger] self.requirements@[j]).1 {
                CommandIndex::Command(i) => i < self.commands@.len()
                    && self.commands@[i as int] is Some
                    && self.cmd_requirements@[i as int]@.contains(self.requirements@[j].0),
                CommandIndex::DefaultCommand(d) => d < self.default_commands@.len(),
            }
        &&& forall|i: int| 0 <= i < self.cmd_orphan@.len() && self.cmd_orphan@[i]
            ==> (#[trigger] self.commands@[i]) is Some
        &&& forall|j: int| 0 <= j < self.cond_schedulers@.len()
            ==> (#[trigger] self.cond_schedulers@[j]).wf()
    }

    /// The current owner of subsystem `s`, if any.
    pub closed spec fn owner_of(&self, s: u8) -> Option<CommandIndex> {
        lookup(self.requirements@, s)
    }

    /// The default slot registered for subsystem `s`, if any.
    pub closed spec fn default_of(&self, s: u8) -> Option<CommandIndex> {
        lookup(self.subsystem_to_default@, s)
    }

    /// The raw ownership table, for stating uniqueness of ownership.
    pub closed spec fn owners_table(&self) -> Seq<(u8, CommandIndex)> {
        self.requirements@
    }

    pub closed spec fn transient_count(&self) -> int {
        self.commands@.len() as int
    }

    pub closed spec fn transient_slots(&self) -> Seq<Option<Command>> {
        self.commands@
    }

    pub closed spec fn slot_occupied(&self, i: int) -> bool {
        0 <= i < self.commands@.len() && self.commands@[i] is Some
    }

    pub closed spec fn slot_initialized(&self, i: int) -> bool {
        0 <= i < self.cmd_initialized@.len() && self.cmd_initialized@[i]
    }

    pub closed spec fn slot_orphan(&self, i: int) -> bool {
        0 <= i < self.cmd_orphan@.len() && self.cmd_orphan@[i]
    }

    pub closed spec fn slot_interrupted(&self, i: int) -> bool {
        0 <= i < self.cmd_interrupt@.len() && self.cmd_interrupt@[i]
    }

    pub closed spec fn default_count(&self) -> int {
        self.default_commands@.len() as int
    }

    pub closed spec fn default_occupied(&self, d: int) -> bool {
        0 <= d < self.default_commands@.len() && self.default_commands@[d] is Some
    }

    pub closed spec fn default_slot_initialized(&self, d: int) -> bool {
        0 <= d < self.default_initialized@.len() && self.default_initialized@[d]
    }

    pub closed spec fn default_slot_interrupted(&self, d: int) -> bool {
        0 <= d < self.default_interrupt@.len() && self.default_interrupt@[d]
    }

    pub closed spec fn suid_counter(&self) -> u8 {
        self.suid
    }

    pub closed spec fn scheduler_count(&self) -> int {
        self.cond_schedulers@.len() as int
    }

    /// Does some subsystem's ownership entry point at slot `idx`?
    pub closed spec fn owns_any(&self, idx: CommandIndex) -> bool {
        exists|j: int| 0 <= j < self.requirements@.len()
            && (#[trigger] self.requirements@[j]).1 == idx
    }

    /// Whether the slot takes part in the command pass of a tick: an
    /// orphaned transient slot always runs; any other slot runs while an
    /// ownership entry points at it.
    pub open spec fn slot_owning(&self, idx: CommandIndex) -> bool {
        match idx {
            CommandIndex::Command(i) => self.slot_orphan(i as int) || self.owns_any(idx),
            CommandIndex::DefaultCommand(d) => self.owns_any(idx),
        }
    }

    pub fn new() -> (r: CommandManager)
        ensures
            r.wf(),
            r.transient_count() == 0,
            r.default_count() == 0,
            r.scheduler_count() == 0,
            r.suid_counter() == 0,
            forall|s: u8| r.owner_of(s) == None::<CommandIndex>,
            forall|s: u8| r.default_of(s) == None::<CommandIndex>,
    {
        CommandManager {
            periodic_callbacks: Vec::new(),
            commands: Vec::new(),
            cmd_interrupt: Vec::new(),
            cmd_initialized: Vec::new(),
            cmd_orphan: Vec::new(),
            cmd_requirements: Vec::new(),
            default_commands: Vec::new(),
            default_interrupt: Vec::new(),
            default_initialized: Vec::new(),
            subsystem_to_default: Vec::new(),
            requirements: Vec::new(),
            cond_schedulers: Vec::new(),
            suid: 0,
        }
    }

    /// Hands out the next subsystem id from the monotonic counter.
    pub fn get_suid(&mut self) -> (r: u8)
        requires
            old(self).wf(),
            old(self).suid_counter() < 255,
        ensures
            final(self).wf(),
            r == old(self).suid_counter(),
            final(self).suid_counter() == old(self).suid_counter() + 1,
            final(self).owners_table() == old(self).owners_table(),
            forall|s: u8| final(self).default_of(s) == old(self).default_of(s),
            final(self).transient_slots() == old(self).transient_slots(),
            final(self).scheduler_count() == old(self).scheduler_count(),
    {
        let newsuid = self.suid;
        self.suid = self.suid + 1;
        newsuid
    }

    /// Registers a subsystem: records its periodic callback, appends a
    /// permanent default slot holding `default_command`, and wires `suid`
    /// to that slot (re-registering a suid re-wires it).
    pub fn register_subsystem(
        &mut self,
        suid: u8,
        subsystem: Box<dyn Subsystem>,
        default_command: Option<Command>,
    )
        requires
            old(self).wf(),
        ensures
            final(self).wf(),
            final(self).default_count() == old(self).default_count() + 1,
            final(self).default_of(suid)
                == Some(CommandIndex::DefaultCommand(old(self).default_count() as usize)),
            forall|s: u8| s != suid ==> final(self).default_of(s) == old(self).default_of(s),
            final(self).default_occupied(old(self).default_count()) == default_command is Some,
            !final(self).default_slot_initialized(old(self).default_count()),
            !final(self).default_slot_interrupted(old(self).default_count()),
            forall|d: int| 0 <= d < old(self).default_count()
                ==> final(self).default_occupied(d) == old(self).default_occupied(d)
                    && final(self).default_slot_initialized(d) == old(self).default_slot_initialized(d),
            final(self).owners_table() == old(self).owners_table(),
            final(self).transient_slots() == old(self).transient_slots(),
            final(self).scheduler_count() == old(self).scheduler_count(),
            final(self).suid_counter() == old(self).suid_counter(),
    {
        push_callback(&mut self.periodic_callbacks, SubsystemHolder(subsystem));
        self.default_commands.push(default_command);
        self.default_interrupt.push(false);
        self.default_initialized.push(false);
        let idx = self.default_commands.len() - 1;
        map_insert(&mut self.subsystem_to_default, suid, CommandIndex::DefaultCommand(idx));
        proof {
            assert forall|j: int| 0 <= j < self.subsystem_to_default@.len()
                implies (#[trigger] self.subsystem_to_default@[j].1)
                    matches CommandIndex::DefaultCommand(d)
                    && d < self.default_commands@.len() by {
                if self.subsystem_to_default@[j] != (suid, CommandIndex::DefaultCommand(idx)) {
                    assert(old(self).subsystem_to_default@.contains(self.subsystem_to_default@[j]));
                    let jj = choose|jj: int| 0 <= jj < old(self).subsystem_to_default@.len()
                        && old(self).subsystem_to_default@[jj] == self.subsystem_to_default@[j];
                    assert(old(self).subsystem_to_default@[jj].1
                        matches CommandIndex::DefaultCommand(d)
                        && d < old(self).default_commands@.len());
                }
            }
        }
    }

    /// Stores a command in the lowest free transient slot (or a new one),
    /// with its interrupt, initialized and orphan flags cleared and
    /// `requirements` recorded as the slot's requirement cache.
    fn add_command(&mut self, command: Command, requirements: Vec<u8>) -> (idx: usize)
        requires
            old(self).wf(),
        ensures
            final(self).wf(),
            first_free_in(old(self).transient_slots(), idx as int),
            final(self).transient_count()
                == if idx as int == old(self).transient_count() {
                    old(self).transient_count() + 1
                } else {
                    old(self).transient_count()
                },
            final(self).slot_occupied(idx as int),
            !final(self).slot_initialized(idx as int),
            !final(self).slot_interrupted(idx as int),
            !final(self).slot_orphan(idx as int),
            final(self).cached_reqs(idx as int) == requirements@,
            forall|i: int| 0 <= i < old(self).transient_count() && i != idx as int ==> {
                &&& final(self).slot_occupied(i) == old(self).slot_occupied(i)
                &&& final(self).slot_initialized(i) == old(self).slot_initialized(i)
                &&& final(self).slot_interrupted(i) == old(self).slot_interrupted(i)
                &&& final(self).slot_orphan(i) == old(self).slot_orphan(i)
                &&& final(self).cached_reqs(i) == old(self).cached_reqs(i)
            },
            final(self).owners_table() == old(self).owners_table(),
            forall|s: u8| final(self).default_of(s) == old(self).default_of(s),
            forall|d: int| 0 <= d < old(self).default_count()
                ==> final(self).default_occupied(d) == old(self).default_occupied(d)
                    && final(self).default_slot_initialized(d)
                        == old(self).default_slot_initialized(d)
                    && final(self).default_slot_interrupted(d)
                        == old(self).default_slot_interrupted(d),
            final(self).default_count() == old(self).default_count(),
            final(self).scheduler_count() == old(self).scheduler_count(),
            final(self).suid_counter() == old(self).suid_counter(),
    {
        let mut i: usize = 0;
        let n = self.commands.len();
        while i < n && self.commands[i].is_some()
            invariant
                n == self.commands@.len(),
                i <= n,
                forall|j: int| 0 <= j < i ==> (#[trigger] self.commands@[j]) is Some,
                *self == *old(self),
            decreases n - i,
        {
            i += 1;
        }
        if i < n {
            let slot = Some(command);
            self.commands[i] = slot;
            self.cmd_interrupt[i] = false;
            self.cmd_initialized[i] = false;
            self.cmd_orphan[i] = false;
            self.cmd_requirements[i] = requirements;
        } else {
            let slot = Some(command);
            self.commands.push(slot);
            self.cmd_interrupt.push(false);
            self.cmd_initialized.push(false);
            self.cmd_orphan.push(false);
            self.cmd_requirements.push(requirements);
        }
        proof {
            assert forall|j: int| 0 <= j < self.requirements@.len()
                implies match (#[trigger] self.requirements@[j]).1 {
                    CommandIndex::Command(ii) => ii < self.commands@.len()
                        && self.commands@[ii as int] is Some
                        && self.cmd_requirements@[ii as int]@.contains(self.requirements@[j].0),
                    CommandIndex::DefaultCommand(d) => d < self.default_commands@.len(),
                } by {
                match self.requirements@[j].1 {
                    CommandIndex::Command(ii) => {
                        assert(old(self).commands@[ii as int] is Some);
                        assert(ii as int != i as int || i >= n);
                    }
                    CommandIndex::DefaultCommand(_) => {}
                }
            }
        }
        i
    }

    /// The requirement list recorded for a transient slot when it was last
    /// filled.
    pub closed spec fn cached_reqs(&self, i: int) -> Seq<u8> {
        if 0 <= i < self.cmd_requirements@.len() {
            self.cmd_requirements@[i]@
        } else {
            Seq::empty()
        }
    }

    /// Asks for cooperative cancellation of the command in `idx` on the
    /// next tick.
    fn interrupt_command(&mut self, idx: CommandIndex)
        requires
            old(self).wf(),
        ensures
            final(self).wf(),
            final(self).owners_table() == old(self).owners_table(),
            forall|s: u8| final(self).default_of(s) == old(self).default_of(s),
            final(self).transient_count() == old(self).transient_count(),
            final(self).default_count() == old(self).default_count(),
            final(self).scheduler_count() == old(self).scheduler_count(),
            forall|i: int| 0 <= i < old(self).transient_count() ==> {
                &&& final(self).slot_occupied(i) == old(self).slot_occupied(i)
                &&& final(self).slot_initialized(i) == old(self).slot_initialized(i)
                &&& final(self).slot_orphan(i) == old(self).slot_orphan(i)
                &&& final(self).cached_reqs(i) == old(self).cached_reqs(i)
            },
            forall|i: int| 0 <= i < old(self).transient_count()
                && CommandIndex::Command(i as usize) != idx
                ==> final(self).slot_interrupted(i) == old(self).slot_interrupted(i),
            (idx matches CommandIndex::Command(i) && (i as int) < old(self).transient_count())
                ==> final(self).slot_interrupted(idx->Command_0 as int),
            (idx matches CommandIndex::DefaultCommand(d)
                && (d as int) < old(self).default_count())
                ==> final(self).default_slot_interrupted(idx->DefaultCommand_0 as int),
            forall|d: int| 0 <= d < old(self).default_count()
                && CommandIndex::DefaultCommand(d as usize) != idx
                ==> final(self).default_slot_interrupted(d)
                    == old(self).default_slot_interrupted(d),
            forall|d: int| 0 <= d < old(self).default_count()
                ==> final(self).default_occupied(d) == old(self).default_occupied(d)
                    && final(self).default_slot_initialized(d)
                        == old(self).default_slot_initialized(d),
            final(self).suid_counter() == old(self).suid_counter(),
    {
        match idx {
            CommandIndex::Command(i) => {
                if i < self.cmd_interrupt.len() {
                    self.cmd_interrupt[i] = true;
                }
            }
            CommandIndex::DefaultCommand(d) => {
                if d < self.default_interrupt.len() {
                    self.default_interrupt[d] = true;
                }
            }
        }
    }
}

impl CommandManager {
    /// Stores `command` in a free slot and takes ownership of every
    /// subsystem it requires (overwriting any previous owner); a command
    /// with no requirements is marked orphaned and runs unconditionally.
    #[verifier::loop_isolation(false)]
    pub(crate) fn cond_schedule(&mut self, command: Command) -> (r: CommandIndex)
        requires
            old(self).wf(),
        ensures
            final(self).wf(),
            (r matches CommandIndex::Command(i)
                && first_free_in(old(self).transient_slots(), i as int)
                && final(self).slot_occupied(i as int)
                && !final(self).slot_initialized(i as int)
                && !final(self).slot_interrupted(i as int)),
            command.reqs_known() ==> (r matches CommandIndex::Command(i) && {
                &&& final(self).cached_reqs(i as int) == command.reqs()
                &&& final(self).slot_orphan(i as int) <==> command.reqs().len() == 0
                &&& forall|s: u8| final(self).owner_of(s)
                    == (if command.reqs().contains(s) { Some(r) } else { old(self).owner_of(s) })
            }),
            forall|s: u8| old(self).owner_of(s) is Some ==> final(self).owner_of(s) is Some,
            forall|s: u8| final(self).owner_of(s) == old(self).owner_of(s)
                || final(self).owner_of(s) == Some(r),
            forall|s: u8| final(self).default_of(s) == old(self).default_of(s),
            final(self).default_count() == old(self).default_count(),
            forall|d: int| 0 <= d < old(self).default_count()
                ==> final(self).default_occupied(d) == old(self).default_occupied(d)
                    && final(self).default_slot_initialized(d)
                        == old(self).default_slot_initialized(d)
                    && final(self).default_slot_interrupted(d)
                        == old(self).default_slot_interrupted(d),
            final(self).scheduler_count() == old(self).scheduler_count(),
            final(self).suid_counter() == old(self).suid_counter(),
            old(self).transient_count() <= final(self).transient_count()
                <= old(self).transient_count() + 1,
            forall|i: int| 0 <= i < old(self).transient_count()
                && CommandIndex::Command(i as usize) != r ==> {
                &&& final(self).slot_occupied(i) == old(self).slot_occupied(i)
                &&& final(self).slot_initialized(i) == old(self).slot_initialized(i)
                &&& final(self).slot_interrupted(i) == old(self).slot_interrupted(i)
                &&& final(self).slot_orphan(i) == old(self).slot_orphan(i)
                &&& final(self).cached_reqs(i) == old(self).cached_reqs(i)
            },
    {
        let reqs = command.requirements_vec();
        let cache = reqs.clone();
        let idx = self.add_command(command, cache);
        let r = CommandIndex::Command(idx);
        let ghost mid = *self;
        if reqs.len() == 0 {
            self.cmd_orphan[idx] = true;
        } else {
            let mut k: usize = 0;
            while k < reqs.len()
                invariant
                    self.commands@ == mid.commands@,
                    self.cmd_interrupt@ == mid.cmd_interrupt@,
                    self.cmd_initialized@ == mid.cmd_initialized@,
                    self.cmd_orphan@ == mid.cmd_orphan@,
                    self.cmd_requirements@ == mid.cmd_requirements@,
                    self.default_commands@ == mid.default_commands@,
                    self.default_interrupt@ == mid.default_interrupt@,
                    self.default_initialized@ == mid.default_initialized@,
                    self.subsystem_to_default@ == mid.subsystem_to_default@,
                    self.cond_schedulers@ == mid.cond_schedulers@,
                    self.suid == mid.suid,
                    table_unique(self.requirements@),
                    forall|j: int| 0 <= j < self.requirements@.len()
                        ==> match (#[trigger] self.requirements@[j]).1 {
                            CommandIndex::Command(ii) => ii < self.commands@.len()
                                && self.commands@[ii as int] is Some
                                && self.cmd_requirements@[ii as int]@.contains(
                                    self.requirements@[j].0),
                            CommandIndex::DefaultCommand(d) => d < self.default_commands@.len(),
                        },
                    forall|s: u8| lookup(self.requirements@, s) == lookup(mid.requirements@, s)
                        || lookup(self.requirements@, s) == Some(r),
                    forall|kk: int| 0 <= kk < k
                        ==> lookup(self.requirements@, #[trigger] reqs@[kk]) == Some(r),
                    forall|s: u8| !reqs@.contains(s)
                        ==> lookup(self.requirements@, s) == lookup(mid.requirements@, s),
                    forall|s: u8| lookup(mid.requirements@, s) is Some
                        ==> lookup(self.requirements@, s) is Some,
                decreases reqs@.len() - k,
            {
                let s = reqs[k];
                proof {
                    assert(reqs@.contains(reqs@[k as int]));
                    assert(self.cached_reqs(idx as int) == reqs@);
                }
                let ghost pre = self.requirements@;
                map_insert(&mut self.requirements, s, r);
                proof {
                    assert forall|j: int| 0 <= j < self.requirements@.len()
                        implies match (#[trigger] self.requirements@[j]).1 {
                            CommandIndex::Command(ii) => ii < self.commands@.len()
                                && self.commands@[ii as int] is Some
                                && self.cmd_requirements@[ii as int]@.contains(
                                    self.requirements@[j].0),
                            CommandIndex::DefaultCommand(d) => d < self.default_commands@.len(),
                        } by {
                        if self.requirements@[j] != (s, r) {
                            let prev = self.requirements@[j];
                            assert(pre.contains(prev));
                            let jj = choose|jj: int| 0 <= jj < pre.len() && pre[jj] == prev;
                        }
                    }
                }
                k += 1;
            }
        }
        r
    }

    /// Schedules `command`: it is placed in the lowest free transient slot
    /// and, unless its requirement set is empty, becomes the owner of every
    /// subsystem it requires; an empty requirement set makes it an orphan
    /// that runs every tick.
    pub fn schedule(&mut self, command: Command)
        requires
            old(self).wf(),
        ensures
            final(self).wf(),
            forall|s: u8| old(self).owner_of(s) is Some ==> final(self).owner_of(s) is Some,
            forall|s: u8| final(self).default_of(s) == old(self).default_of(s),
            final(self).default_count() == old(self).default_count(),
            final(self).scheduler_count() == old(self).scheduler_count(),
            final(self).suid_counter() == old(self).suid_counter(),
            forall|d: int| 0 <= d < old(self).default_count()
                ==> final(self).default_occupied(d) == old(self).default_occupied(d)
                    && final(self).default_slot_initialized(d)
                        == old(self).default_slot_initialized(d)
                    && final(self).default_slot_interrupted(d)
                        == old(self).default_slot_interrupted(d),
            old(self).transient_count() <= final(self).transient_count()
                <= old(self).transient_count() + 1,
            forall|i: int| 0 <= i < old(self).transient_count() && old(self).slot_occupied(i)
                ==> {
                &&& final(self).slot_occupied(i)
                &&& final(self).slot_initialized(i) == old(self).slot_initialized(i)
                &&& final(self).slot_interrupted(i) == old(self).slot_interrupted(i)
                &&& final(self).slot_orphan(i) == old(self).slot_orphan(i)
                &&& final(self).cached_reqs(i) == old(self).cached_reqs(i)
            },
            command.reqs_known() ==> forall|s: u8| (#[trigger] final(self).owner_of(s)) is Some
                == (command.reqs().contains(s) || old(self).owner_of(s) is Some),
            command.reqs_known() ==> exists|i: usize| {
                &&& #[trigger] first_free_in(old(self).transient_slots(), i as int)
                &&& final(self).slot_occupied(i as int)
                &&& !final(self).slot_initialized(i as int)
                &&& !final(self).slot_interrupted(i as int)
                &&& final(self).cached_reqs(i as int) == command.reqs()
                &&& (final(self).slot_orphan(i as int) <==> command.reqs().len() == 0)
                &&& forall|s: u8| final(self).owner_of(s) == (if command.reqs().contains(s) {
                    Some(CommandIndex::Command(i))
                } else {
                    old(self).owner_of(s)
                })
            },
    {
        let ghost known = command.reqs_known();
        let n0 = self.commands.len();
        let r = self.cond_schedule(command);
        proof {
            assert(old(self).transient_count() == n0 as int);
            let idx = r->Command_0;
            assert(first_free_in(old(self).transient_slots(), idx as int));
            assert forall|i: int| 0 <= i < old(self).transient_count()
                && old(self).slot_occupied(i) implies {
                &&& self.slot_occupied(i)
                &&& self.slot_initialized(i) == old(self).slot_initialized(i)
                &&& self.slot_interrupted(i) == old(self).slot_interrupted(i)
                &&& self.slot_orphan(i) == old(self).slot_orphan(i)
                &&& self.cached_reqs(i) == old(self).cached_reqs(i)
            } by {
                assert(old(self).transient_slots()[i] is Some);
                if i == idx as int {
                    assert(old(self).transient_slots().len() == old(self).transient_count());
                    assert(false);
                }
                assert(i < n0 as int);
                assert((i as usize) as int == i);
                assert(CommandIndex::Command(i as usize) != r);
            }
        }
    }

    /// Ends every live transient command as interrupted, then clears all
    /// transient storage, the ownership table, and the initialization marks
    /// (the defaults' marks included), in one step.
    #[verifier::loop_isolation(false)]
    pub fn cancel_all(&mut self) -> (events: Ghost<Seq<RunEvent>>)
        requires
            old(self).wf(),
        ensures
            final(self).wf(),
            final(self).transient_count() == 0,
            forall|s: u8| final(self).owner_of(s) == None::<CommandIndex>,
            forall|s: u8| final(self).default_of(s) == old(self).default_of(s),
            final(self).default_count() == old(self).default_count(),
            forall|d: int| 0 <= d < old(self).default_count()
                ==> final(self).default_occupied(d) == old(self).default_occupied(d),
            forall|d: int| 0 <= d < old(self).default_count()
                ==> !final(self).default_slot_initialized(d),
            final(self).scheduler_count() == old(self).scheduler_count(),
            final(self).suid_counter() == old(self).suid_counter(),
            forall|i: int| 0 <= i < old(self).transient_count()
                ==> (events@.contains(RunEvent::End(CommandIndex::Command(i as usize), true))
                    <==> old(self).slot_occupied(i)),
    {
        let ghost mut log: Seq<RunEvent> = Seq::empty();
        let n = self.commands.len();
        let mut i: usize = 0;
        while i < n
            invariant
                n == self.commands@.len(),
                i <= n,
                self.commands@.len() == old(self).commands@.len(),
                forall|ii: int| 0 <= ii < n
                    ==> (#[trigger] self.commands@[ii]) is Some
                        == old(self).commands@[ii] is Some,
                self.cmd_interrupt@ == old(self).cmd_interrupt@,
                self.cmd_initialized@ == old(self).cmd_initialized@,
                self.cmd_orphan@ == old(self).cmd_orphan@,
                self.cmd_requirements@ == old(self).cmd_requirements@,
                self.default_commands@ == old(self).default_commands@,
                self.default_interrupt@ == old(self).default_interrupt@,
                self.default_initialized@ == old(self).default_initialized@,
                self.subsystem_to_default@ == old(self).subsystem_to_default@,
                self.requirements@ == old(self).requirements@,
                self.cond_schedulers@ == old(self).cond_schedulers@,
                self.suid == old(self).suid,
                forall|ii: usize| ii < i ==>
                    (log.contains(RunEvent::End(CommandIndex::Command(ii), true))
                        <==> old(self).slot_occupied(ii as int)),
                forall|ii: usize| #[trigger] log.contains(
                    RunEvent::End(CommandIndex::Command(ii), true))
                    ==> ii < i && old(self).slot_occupied(ii as int),
            decreases n - i,
        {
            let ghost prev_log = log;
            let slot = self.commands.remove(i);
            match slot {
                Some(cmd) => {
                    let (c2, _) = cmd.lifecycle(LifecycleOp::End(true));
                    let filled = Some(c2);
                    self.commands.insert(i, filled);
                    proof {
                        log = log.push(RunEvent::End(CommandIndex::Command(i), true));
                        assert(log[log.len() - 1] == RunEvent::End(CommandIndex::Command(i), true));
                        assert forall|e: RunEvent| prev_log.contains(e) implies log.contains(e) by {
                            let j = choose|j: int| 0 <= j < prev_log.len() && prev_log[j] == e;
                            assert(log[j] == e);
                        }
                        assert forall|e: RunEvent| log.contains(e)
                            implies prev_log.contains(e)
                                || e == RunEvent::End(CommandIndex::Command(i), true) by {
                            let j = choose|j: int| 0 <= j < log.len() && log[j] == e;
                            if j < prev_log.len() {
                                assert(prev_log[j] == e);
                            }
                        }
                    }
                }
                None => {
                    self.commands.insert(i, None);
                }
            }
            i += 1;
        }
        self.commands.clear();
        self.cmd_interrupt.clear();
        self.cmd_initialized.clear();
        self.cmd_orphan.clear();
        self.cmd_requirements.clear();
        self.requirements.clear();
        let m = self.default_initialized.len();
        let mut d: usize = 0;
        while d < m
            invariant
                m == self.default_initialized@.len(),
                d <= m,
                self.default_initialized@.len() == old(self).default_initialized@.len(),
                forall|dd: int| 0 <= dd < d ==> !(#[trigger] self.default_initialized@[dd]),
                self.commands@.len() == 0,
                self.cmd_interrupt@.len() == 0,
                self.cmd_initialized@.len() == 0,
                self.cmd_orphan@.len() == 0,
                self.cmd_requirements@.len() == 0,
                self.requirements@.len() == 0,
                self.default_commands@ == old(self).default_commands@,
                self.default_interrupt@ == old(self).default_interrupt@,
                self.subsystem_to_default@ == old(self).subsystem_to_default@,
                self.cond_schedulers@ == old(self).cond_schedulers@,
                self.suid == old(self).suid,
            decreases m - d,
        {
            self.default_initialized[d] = false;
            d += 1;
        }
        Ghost(log)
    }

    /// Registers a conditional scheduler to be polled by every tick.
    pub fn add_cond_scheduler(&mut self, scheduler: ConditionalScheduler)
        requires
            old(self).wf(),
            scheduler.wf(),
        ensures
            final(self).wf(),
            final(self).scheduler_count() == old(self).scheduler_count() + 1,
            forall|s: u8| final(self).owner_of(s) == old(self).owner_of(s),
            forall|s: u8| final(self).default_of(s) == old(self).default_of(s),
            final(self).transient_slots() == old(self).transient_slots(),
    {
        self.cond_schedulers.push(scheduler);
    }

    /// Drops every registered conditional scheduler.
    pub fn clear_cond_schedulers(&mut self)
        requires
            old(self).wf(),
        ensures
            final(self).wf(),
            final(self).scheduler_count() == 0,
            forall|s: u8| final(self).owner_of(s) == old(self).owner_of(s),
            forall|s: u8| final(self).default_of(s) == old(self).default_of(s),
            final(self).transient_slots() == old(self).transient_slots(),
    {
        self.cond_schedulers.clear();
    }

    /// First pass of a tick: every subsystem's periodic callback runs, then
    /// every registered subsystem without an owner is assigned its default
    /// slot.
    #[verifier::loop_isolation(false)]
    fn run_subsystems(&mut self)
        requires
            old(self).wf(),
        ensures
            final(self).wf(),
            forall|s: u8| old(self).owner_of(s) is Some
                ==> final(self).owner_of(s) == old(self).owner_of(s),
            forall|s: u8| old(self).owner_of(s) is None && old(self).default_of(s) is Some
                ==> final(self).owner_of(s) == old(self).default_of(s),
            forall|s: u8| old(self).owner_of(s) is None && old(self).default_of(s) is None
                ==> final(self).owner_of(s) is None,
            forall|s: u8| final(self).default_of(s) == old(self).default_of(s),
            final(self).transient_slots() == old(self).transient_slots(),
            final(self).cmd_state_unchanged(old(self)),
            final(self).default_count() == old(self).default_count(),
            forall|d: int| 0 <= d < old(self).default_count()
                ==> final(self).default_occupied(d) == old(self).default_occupied(d)
                    && final(self).default_slot_initialized(d)
                        == old(self).default_slot_initialized(d)
                    && final(self).default_slot_interrupted(d)
                        == old(self).default_slot_interrupted(d),
            final(self).scheduler_count() == old(self).scheduler_count(),
            final(self).suid_counter() == old(self).suid_counter(),
    {
        let mut i: usize = 0;
        let n = self.periodic_callbacks.len();
        while i < n
            invariant
                *self == *old(self),
                n == self.periodic_callbacks@.len(),
                i <= n,
            decreases n - i,
        {
            self.periodic_callbacks[i].0.periodic();
            i += 1;
        }
        let m = self.subsystem_to_default.len();
        let mut k: usize = 0;
        while k < m
            invariant
                m == self.subsystem_to_default@.len(),
                k <= m,
                self.commands@ == old(self).commands@,
                self.cmd_interrupt@ == old(self).cmd_interrupt@,
                self.cmd_initialized@ == old(self).cmd_initialized@,
                self.cmd_orphan@ == old(self).cmd_orphan@,
                self.cmd_requirements@ == old(self).cmd_requirements@,
                self.default_commands@ == old(self).default_commands@,
                self.default_interrupt@ == old(self).default_interrupt@,
                self.default_initialized@ == old(self).default_initialized@,
                self.subsystem_to_default@ == old(self).subsystem_to_default@,
                self.cond_schedulers@ == old(self).cond_schedulers@,
                self.suid == old(self).suid,
                self.periodic_callbacks@ == old(self).periodic_callbacks@,
                table_unique(self.requirements@),
                forall|j: int| 0 <= j < self.requirements@.len()
                    ==> match (#[trigger] self.requirements@[j]).1 {
                        CommandIndex::Command(ii) => ii < self.commands@.len()
                            && self.commands@[ii as int] is Some
                            && self.cmd_requirements@[ii as int]@.contains(self.requirements@[j].0),
                        CommandIndex::DefaultCommand(d) => d < self.default_commands@.len(),
                    },
                forall|s: u8| old(self).owner_of(s) is Some
                    ==> lookup(self.requirements@, s) == old(self).owner_of(s),
                forall|kk: int| 0 <= kk < k
                    ==> lookup(self.requirements@, (#[trigger] self.subsystem_to_default@[kk]).0)
                        is Some,
                forall|kk: int| 0 <= kk < k
                    && old(self).owner_of(self.subsystem_to_default@[kk].0)
                        is None
                    ==> lookup(self.requirements@, (#[trigger] self.subsystem_to_default@[kk]).0)
                        == Some(self.subsystem_to_default@[kk].1),
                forall|s: u8| lookup(self.requirements@, s) == old(self).owner_of(s)
                    || exists|kk: int| 0 <= kk < k
                        && (#[trigger] self.subsystem_to_default@[kk]).0 == s,
            decreases m - k,
        {
            let pair = self.subsystem_to_default[k];
            let cur = map_find(&self.requirements, pair.0);
            let ghost pre = self.requirements@;
            if cur.is_none() {
                map_insert(&mut self.requirements, pair.0, pair.1);
                proof {
                    assert forall|j: int| 0 <= j < self.requirements@.len()
                        implies match (#[trigger] self.requirements@[j]).1 {
                            CommandIndex::Command(ii) => ii < self.commands@.len()
                                && self.commands@[ii as int] is Some
                                && self.cmd_requirements@[ii as int]@.contains(
                                    self.requirements@[j].0),
                            CommandIndex::DefaultCommand(d) => d < self.default_commands@.len(),
                        } by {
                        if self.requirements@[j] != (pair.0, pair.1) {
                            let prev = self.requirements@[j];
                            assert(pre.contains(prev));
                            let jj = choose|jj: int| 0 <= jj < pre.len() && pre[jj] == prev;
                        }
                    }
                }
            }
            k += 1;
        }
        proof {
            assert forall|s: u8| old(self).owner_of(s) is None && old(self).default_of(s) is Some
                implies lookup(self.requirements@, s) == old(self).default_of(s) by {
                let kk = table_idx(old(self).subsystem_to_default@, s);
                assert(0 <= kk < self.subsystem_to_default@.len()
                    && self.subsystem_to_default@[kk].0 == s);
                lemma_table_idx_is(self.subsystem_to_default@, s, kk);
            }
            assert forall|s: u8| old(self).owner_of(s) is None && old(self).default_of(s)
                is None implies lookup(self.requirements@, s) is None by {
                if lookup(self.requirements@, s) != old(self).owner_of(s) {
                    let kk = choose|kk: int| 0 <= kk < self.subsystem_to_default@.len()
                        && (#[trigger] self.subsystem_to_default@[kk]).0 == s;
                    assert(table_has(old(self).subsystem_to_default@, s));
                }
            }
        }
    }

    /// The transient-slot bookkeeping (slots, flags, caches) is unchanged.
    pub open spec fn cmd_state_unchanged(&self, other: &CommandManager) -> bool {
        &&& self.transient_count() == other.transient_count()
        &&& forall|i: int| 0 <= i < other.transient_count() ==> {
            &&& self.slot_occupied(i) == other.slot_occupied(i)
            &&& self.slot_initialized(i) == other.slot_initialized(i)
            &&& self.slot_interrupted(i) == other.slot_interrupted(i)
            &&& self.slot_orphan(i) == other.slot_orphan(i)
            &&& self.cached_reqs(i) == other.cached_reqs(i)
        }
    }
}

/// What one pair's poll did: the response its condition produced, and the
/// slot its factory's command was placed in, where one was started.
pub struct PollEvent {
    pub response: ConditionResponse,
    pub started: Option<CommandIndex>,
}

/// What a poll owes a pair for each response: `Start` places a command and
/// records its slot; `Continue` does so only when no record stands;
/// `Stop` clears the record; `NoChange` leaves it.
pub open spec fn pair_outcome(
    ev: PollEvent,
    before: Option<CommandIndex>,
    after: Option<CommandIndex>,
) -> bool {
    &&& (ev.response is Start ==> ev.started is Some && after == ev.started)
    &&& (ev.response is Continue ==> (if before is Some {
        ev.started is None && after == before
    } else {
        ev.started is Some && after == ev.started
    }))
    &&& (ev.response is Stop ==> ev.started is None && after is None)
    &&& (ev.response is NoChange ==> ev.started is None && after == before)
}

impl ConditionalScheduler {
    /// One tick's poll: each condition is evaluated in pair order and its
    /// response is carried out against the manager — `Start` schedules a
    /// fresh command from the factory, `Continue` does so only if none is
    /// recorded, `Stop` interrupts the recorded command, `NoChange` does
    /// nothing.  The returned events say, pair by pair, which response was
    /// seen and which slot was started.
    #[verifier::loop_isolation(false)]
    #[verifier::rlimit(100)]
    pub fn poll(&mut self, manager: &mut CommandManager) -> (events: Ghost<Seq<PollEvent>>)
        requires
            old(self).wf(),
            old(manager).wf(),
        ensures
            final(self).wf(),
            final(self).pairs() == old(self).pairs(),
            final(manager).wf(),
            events@.len() == old(self).pairs(),
            forall|i: int| 0 <= i < old(self).pairs()
                ==> pair_outcome(
                    #[trigger] events@[i],
                    old(self).record_at(i),
                    final(self).record_at(i),
                ),
            forall|i: int| 0 <= i < old(self).pairs() ==> match (#[trigger] events@[i]).started {
                Some(ci) => ci matches CommandIndex::Command(k)
                    && (k as int) < final(manager).transient_count()
                    && final(manager).slot_occupied(k as int),
                None => true,
            },
            forall|i: int| 0 <= i < old(self).pairs()
                && (#[trigger] events@[i]).response is Stop
                ==> match old(self).record_at(i) {
                    Some(CommandIndex::Command(k)) => old(manager).slot_occupied(k as int)
                        ==> final(manager).slot_interrupted(k as int),
                    _ => true,
                },
            old(self).pairs() == 0 ==> *final(manager) == *old(manager),
            old(self).pairs() == 0 ==> *final(self) == *old(self),
            forall|k: int| old(manager).slot_occupied(k) ==> final(manager).slot_occupied(k),
            old(manager).transient_count() <= final(manager).transient_count(),
            forall|s: u8| old(manager).owner_of(s) is Some
                ==> final(manager).owner_of(s) is Some,
            forall|s: u8| final(manager).default_of(s) == old(manager).default_of(s),
            final(manager).default_count() == old(manager).default_count(),
            forall|d: int| 0 <= d < old(manager).default_count()
                ==> final(manager).default_occupied(d) == old(manager).default_occupied(d)
                    && final(manager).default_slot_initialized(d)
                        == old(manager).default_slot_initialized(d),
            final(manager).scheduler_count() == old(manager).scheduler_count(),
            final(manager).suid_counter() == old(manager).suid_counter(),
    {
        let n = self.conds.len();
        let ghost mut log: Seq<PollEvent> = Seq::empty();
        let mut i: usize = 0;
        while i < n
            invariant
                n == self.conds@.len(),
                i <= n,
                n == 0 ==> *manager == *old(manager),
                n == 0 ==> *self == *old(self),
                self.conds@.len() == old(self).conds@.len(),
                self.factories@.len() == old(self).factories@.len(),
                self.active_commands@.len() == old(self).active_commands@.len(),
                log.len() == i,
                forall|j: int| i <= j < n
                    ==> #[trigger] self.active_commands@[j] == old(self).record_at(j),
                forall|j: int| 0 <= j < i
                    ==> pair_outcome(
                        #[trigger] log[j],
                        old(self).record_at(j),
                        self.active_commands@[j],
                    ),
                forall|j: int| 0 <= j < i ==> match (#[trigger] log[j]).started {
                    Some(ci) => ci matches CommandIndex::Command(k)
                        && (k as int) < manager.transient_count()
                        && manager.slot_occupied(k as int),
                    None => true,
                },
                forall|j: int| 0 <= j < i && (#[trigger] log[j]).response is Stop
                    ==> match old(self).record_at(j) {
                        Some(CommandIndex::Command(k)) => old(manager).slot_occupied(k as int)
                            ==> manager.slot_interrupted(k as int),
                        _ => true,
                    },
                manager.wf(),
                forall|k: int| old(manager).slot_occupied(k) ==> manager.slot_occupied(k),
                old(manager).transient_count() <= manager.transient_count(),
                forall|s: u8| old(manager).owner_of(s) is Some
                    ==> manager.owner_of(s) is Some,
                forall|s: u8| manager.default_of(s) == old(manager).default_of(s),
                manager.default_count() == old(manager).default_count(),
                forall|d: int| 0 <= d < old(manager).default_count()
                    ==> manager.default_occupied(d) == old(manager).default_occupied(d)
                        && manager.default_slot_initialized(d)
                            == old(manager).default_slot_initialized(d),
                manager.scheduler_count() == old(manager).scheduler_count(),
                manager.suid_counter() == old(manager).suid_counter(),
            decreases n - i,
        {
            let ghost rec_before = self.active_commands@[i as int];
            proof {
                assert(rec_before == old(self).record_at(i as int));
            }
            let mut cond = self.conds.remove(i);
            let response = cond.0.get_condition();
            self.conds.insert(i, cond);
            let ghost m_pre = *manager;
            let mut started: Option<CommandIndex> = None;
            match response {
                ConditionResponse::Start => {
                    let command = self.factories[i].0.call();
                    let pre_len = manager.commands.len();
                    let cmd_idx = manager.cond_schedule(command);
                    self.active_commands[i] = Some(cmd_idx);
                    started = Some(cmd_idx);
                    proof {
                        lemma_sched_preserves(&m_pre, manager, cmd_idx, pre_len);
                    }
                }
                ConditionResponse::Continue => {
                    if self.active_commands[i].is_none() {
                        let command = self.factories[i].0.call();
                        let pre_len = manager.commands.len();
                        let cmd_idx = manager.cond_schedule(command);
                        self.active_commands[i] = Some(cmd_idx);
                        started = Some(cmd_idx);
                        proof {
                            lemma_sched_preserves(&m_pre, manager, cmd_idx, pre_len);
                        }
                    }
                }
                ConditionResponse::Stop => {
                    let active = self.active_commands[i];
                    match active {
                        Some(idx) => {
                            let pre_len = manager.commands.len();
                            manager.interrupt_command(idx);
                            self.active_commands[i] = None;
                            proof {
                                lemma_interrupt_preserves(&m_pre, manager, idx, pre_len);
                            }
                        }
                        None => {
                            self.active_commands[i] = None;
                        }
                    }
                }
                ConditionResponse::NoChange => {}
            }
            proof {
                assert(forall|kk: int| m_pre.slot_occupied(kk)
                    ==> #[trigger] manager.slot_occupied(kk));
                assert(forall|kk: int| m_pre.slot_occupied(kk) && m_pre.slot_interrupted(kk)
                    ==> #[trigger] manager.slot_interrupted(kk));
                assert(m_pre.transient_count() <= manager.transient_count());
                let ev = PollEvent { response, started };
                lemma_poll_log_push(log, ev);
                log = log.push(ev);
                assert(log[i as int] == ev);
                assert forall|j: int| 0 <= j < i implies match (#[trigger] log[j]).started {
                    Some(ci) => ci matches CommandIndex::Command(k)
                        && (k as int) < manager.transient_count()
                        && manager.slot_occupied(k as int),
                    None => true,
                } by {
                    if log[j].started is Some {
                        let ci = log[j].started->0;
                        assert(m_pre.slot_occupied(ci->Command_0 as int));
                    }
                }
                assert forall|j: int| 0 <= j < i && (#[trigger] log[j]).response is Stop
                    implies match old(self).record_at(j) {
                        Some(CommandIndex::Command(k)) => old(manager).slot_occupied(k as int)
                            ==> manager.slot_interrupted(k as int),
                        _ => true,
                    } by {
                    match old(self).record_at(j) {
                        Some(ci) => {
                            match ci {
                                CommandIndex::Command(k) => {
                                    if old(manager).slot_occupied(k as int) {
                                        assert(m_pre.slot_occupied(k as int));
                                        assert(m_pre.slot_interrupted(k as int));
                                    }
                                }
                                CommandIndex::DefaultCommand(_) => {}
                            }
                        }
                        None => {}
                    }
                }
                if response is Stop {
                    match rec_before {
                        Some(ci) => {
                            match ci {
                                CommandIndex::Command(k) => {
                                    if old(manager).slot_occupied(k as int) {
                                        assert(m_pre.slot_occupied(k as int));
                                        assert((k as int) < m_pre.transient_count());
                                        assert(manager.slot_interrupted(k as int));
                                    }
                                }
                                CommandIndex::DefaultCommand(_) => {}
                            }
                        }
                        None => {}
                    }
                }
                assert(pair_outcome(ev, rec_before, self.active_commands@[i as int]));
            }
            i += 1;
        }
        proof {
            assert forall|j: int| 0 <= j < n
                implies #[trigger] self.record_at(j) == self.active_commands@[j] by {}
        }
        Ghost(log)
    }
}

/// Scheduling places a command into a slot that was free, so every slot
/// occupied before keeps its occupancy and its interrupt flag.
proof fn lemma_sched_preserves(
    pre: &CommandManager,
    post: &CommandManager,
    r: CommandIndex,
    pre_len: usize,
)
    requires
        pre.transient_count() == pre_len as int,
        r matches CommandIndex::Command(idx) && first_free_in(
            pre.transient_slots(),
            idx as int,
        ),
        pre.transient_count() <= post.transient_count(),
        forall|i: int| 0 <= i < pre.transient_count()
            && CommandIndex::Command(i as usize) != r ==> {
            &&& post.slot_occupied(i) == pre.slot_occupied(i)
            &&& post.slot_interrupted(i) == pre.slot_interrupted(i)
        },
    ensures
        forall|kk: int| pre.slot_occupied(kk) ==> #[trigger] post.slot_occupied(kk),
        forall|kk: int| pre.slot_occupied(kk) && pre.slot_interrupted(kk)
            ==> #[trigger] post.slot_interrupted(kk),
{
    let idx = r->Command_0;
    assert forall|kk: int| pre.slot_occupied(kk) implies post.slot_occupied(kk)
        && (pre.slot_interrupted(kk) ==> post.slot_interrupted(kk)) by {
        assert(pre.transient_slots()[kk] is Some);
        if kk == idx as int {
            assert(pre.transient_slots().len() == pre.transient_count());
            assert(false);
        }
        assert(kk < pre_len as int);
        assert((kk as usize) as int == kk);
        assert(CommandIndex::Command(kk as usize) != r);
    }
}

/// An interrupt request only raises one flag: occupancy and already-raised
/// flags survive it.
proof fn lemma_interrupt_preserves(
    pre: &CommandManager,
    post: &CommandManager,
    idx: CommandIndex,
    pre_len: usize,
)
    requires
        pre.transient_count() == pre_len as int,
        post.transient_count() == pre.transient_count(),
        forall|i: int| 0 <= i < pre.transient_count()
            ==> post.slot_occupied(i) == pre.slot_occupied(i),
        forall|i: int| 0 <= i < pre.transient_count()
            && CommandIndex::Command(i as usize) != idx
            ==> post.slot_interrupted(i) == pre.slot_interrupted(i),
        (idx matches CommandIndex::Command(k) && (k as int) < pre.transient_count())
            ==> post.slot_interrupted(idx->Command_0 as int),
    ensures
        forall|kk: int| pre.slot_occupied(kk) ==> #[trigger] post.slot_occupied(kk),
        forall|kk: int| pre.slot_occupied(kk) && pre.slot_interrupted(kk)
            ==> #[trigger] post.slot_interrupted(kk),
{
    assert forall|kk: int| pre.slot_occupied(kk) implies post.slot_occupied(kk)
        && (pre.slot_interrupted(kk) ==> post.slot_interrupted(kk)) by {
        assert(pre.transient_slots()[kk] is Some);
        assert(kk < pre_len as int);
        assert((kk as usize) as int == kk);
        if CommandIndex::Command(kk as usize) == idx {
            assert(post.slot_interrupted(kk));
        }
    }
}

/// Membership in a pushed poll log.
proof fn lemma_poll_log_push(prev: Seq<PollEvent>, e: PollEvent)
    ensures
        prev.push(e).len() == prev.len() + 1,
        prev.push(e)[prev.len() as int] == e,
        forall|j: int| 0 <= j < prev.len() ==> #[trigger] prev.push(e)[j] == prev[j],
{
}

impl CommandManager {
    /// Second pass of a tick: every registered conditional scheduler is
    /// polled once, in registration order.
    #[verifier::loop_isolation(false)]
    fn run_cond_schedulers(&mut self)
        requires
            old(self).wf(),
        ensures
            final(self).wf(),
            old(self).scheduler_count() == 0 ==> *final(self) == *old(self),
            final(self).scheduler_count() == old(self).scheduler_count(),
            forall|s: u8| old(self).owner_of(s) is Some ==> final(self).owner_of(s) is Some,
            forall|s: u8| final(self).default_of(s) == old(self).default_of(s),
            final(self).default_count() == old(self).default_count(),
            forall|d: int| 0 <= d < old(self).default_count()
                ==> final(self).default_occupied(d) == old(self).default_occupied(d)
                    && final(self).default_slot_initialized(d)
                        == old(self).default_slot_initialized(d),
            final(self).suid_counter() == old(self).suid_counter(),
    {
        let n = self.cond_schedulers.len();
        let mut i: usize = 0;
        while i < n
            invariant
                self.wf(),
                n == self.cond_schedulers@.len(),
                i <= n,
                n == 0 ==> *self == *old(self),
                self.cond_schedulers@.len() == old(self).cond_schedulers@.len(),
                forall|s: u8| old(self).owner_of(s) is Some ==> self.owner_of(s) is Some,
                forall|s: u8| self.default_of(s) == old(self).default_of(s),
                self.default_count() == old(self).default_count(),
                forall|d: int| 0 <= d < old(self).default_count()
                    ==> self.default_occupied(d) == old(self).default_occupied(d)
                        && self.default_slot_initialized(d)
                            == old(self).default_slot_initialized(d),
                self.suid == old(self).suid,
            decreases n - i,
        {
            let ghost m0 = *self;
            let ghost pre = self.cond_schedulers@;
            let mut sched = self.cond_schedulers.remove(i);
            proof {
                assert forall|j: int| 0 <= j < self.cond_schedulers@.len()
                    implies (#[trigger] self.cond_schedulers@[j]).wf() by {
                    if j < i {
                        assert(self.cond_schedulers@[j] == pre[j]);
                    } else {
                        assert(self.cond_schedulers@[j] == pre[j + 1]);
                    }
                }
            }
            proof {
                assert(sched.wf());
                assert(self.requirements@ == m0.requirements@);
                assert(self.subsystem_to_default@ == m0.subsystem_to_default@);
            }
            let ghost m1 = *self;
            let _ = sched.poll(self);
            proof {
                assert(forall|s: u8| m1.owner_of(s) is Some ==> self.owner_of(s) is Some);
                assert(forall|s: u8| m0.owner_of(s) == m1.owner_of(s));
                assert(forall|s: u8| self.default_of(s) == m1.default_of(s));
                assert(forall|s: u8| m1.default_of(s) == m0.default_of(s));
                assert(m1.default_count() == m0.default_count());
                assert(forall|d: int| 0 <= d < m1.default_count()
                    ==> m1.default_occupied(d) == m0.default_occupied(d)
                        && m1.default_slot_initialized(d) == m0.default_slot_initialized(d));
                assert(forall|d: int| 0 <= d < m1.default_count()
                    ==> self.default_occupied(d) == m1.default_occupied(d)
                        && self.default_slot_initialized(d) == m1.default_slot_initialized(d));
            }
            let ghost pre2 = self.cond_schedulers@;
            self.cond_schedulers.insert(i, sched);
            proof {
                assert forall|j: int| 0 <= j < self.cond_schedulers@.len()
                    implies (#[trigger] self.cond_schedulers@[j]).wf() by {
                    if j < i {
                        assert(self.cond_schedulers@[j] == pre2[j]);
                    } else if j > i {
                        assert(self.cond_schedulers@[j] == pre2[j - 1]);
                    }
                }
            }
            i += 1;
        }
    }
}

/// Does any entry of the ownership table point at slot `idx`?
pub open spec fn table_owns(t: Seq<(u8, CommandIndex)>, idx: CommandIndex) -> bool {
    exists|j: int| 0 <= j < t.len() && (#[trigger] t[j]).1 == idx
}

fn owns_slot(t: &Vec<(u8, CommandIndex)>, idx: CommandIndex) -> (r: bool)
    ensures
        r == table_owns(t@, idx),
{
    let mut j: usize = 0;
    while j < t.len()
        invariant
            j <= t@.len(),
            forall|jj: int| 0 <= jj < j ==> (#[trigger] t@[jj]).1 != idx,
        decreases t@.len() - j,
    {
        if t[j].1 == idx {
            proof {
                assert(table_owns(t@, idx));
            }
            return true;
        }
        j += 1;
    }
    proof {
        assert(!table_owns(t@, idx));
    }
    false
}

/// What `push` does to event-log membership.
proof fn lemma_log_push(prev: Seq<RunEvent>, e: RunEvent)
    ensures
        prev.push(e).contains(e),
        forall|x: RunEvent| prev.contains(x) ==> #[trigger] prev.push(e).contains(x),
        forall|x: RunEvent| #[trigger] prev.push(e).contains(x) ==> prev.contains(x) || x == e,
{
    assert(prev.push(e)[prev.len() as int] == e);
    assert forall|x: RunEvent| prev.contains(x) implies prev.push(e).contains(x) by {
        let j = choose|j: int| 0 <= j < prev.len() && prev[j] == x;
        assert(prev.push(e)[j] == x);
    }
    assert forall|x: RunEvent| prev.push(e).contains(x) implies prev.contains(x) || x == e by {
        let j = choose|j: int| 0 <= j < prev.push(e).len() && prev.push(e)[j] == x;
        if j < prev.len() {
            assert(prev[j] == x);
        }
    }
}

/// Membership in a concatenation of two event logs.
proof fn lemma_log_concat(a: Seq<RunEvent>, b: Seq<RunEvent>)
    ensures
        forall|x: RunEvent| #[trigger] (a + b).contains(x) <==> a.contains(x) || b.contains(x),
{
    assert forall|x: RunEvent| (a + b).contains(x) implies a.contains(x) || b.contains(x) by {
        let j = choose|j: int| 0 <= j < (a + b).len() && (a + b)[j] == x;
        if j < a.len() {
            assert(a[j] == x);
        } else {
            assert(b[j - a.len()] == x);
        }
    }
    assert forall|x: RunEvent| a.contains(x) || b.contains(x) implies (a + b).contains(x) by {
        if a.contains(x) {
            let j = choose|j: int| 0 <= j < a.len() && a[j] == x;
            assert((a + b)[j] == x);
        } else {
            let j = choose|j: int| 0 <= j < b.len() && b[j] == x;
            assert((a + b)[j + a.len()] == x);
        }
    }
}

/// Pushing an event that is not a duplicate `Init` keeps `Init` events
/// distinct.
proof fn lemma_init_distinct_push(prev: Seq<RunEvent>, e: RunEvent)
    requires
        init_events_distinct(prev),
        e is Init ==> !prev.contains(e),
    ensures
        init_events_distinct(prev.push(e)),
{
    let cur = prev.push(e);
    assert forall|k1: int, k2: int| 0 <= k1 < cur.len() && 0 <= k2 < cur.len() && k1 != k2
        && (#[trigger] cur[k1]) is Init implies cur[k1] != #[trigger] cur[k2] by {
        if k1 < prev.len() && k2 < prev.len() {
            assert(prev[k1] == cur[k1] && prev[k2] == cur[k2]);
        } else if k1 == prev.len() {
            assert(cur[k1] == e);
            if cur[k2] == e {
                assert(prev[k2] == e);
                assert(prev.contains(e));
            }
        } else {
            assert(cur[k2] == e);
            assert(cur[k1] == prev[k1]);
            if cur[k1] == e {
                assert(prev.contains(e));
            }
        }
    }
}

/// Pushing onto a queue of slot indices.
proof fn lemma_usize_push(prev: Seq<usize>, e: usize)
    ensures
        prev.push(e).contains(e),
        forall|x: usize| prev.contains(x) ==> #[trigger] prev.push(e).contains(x),
        forall|x: usize| #[trigger] prev.push(e).contains(x) ==> prev.contains(x) || x == e,
{
    assert(prev.push(e)[prev.len() as int] == e);
    assert forall|x: usize| prev.contains(x) implies prev.push(e).contains(x) by {
        let j = choose|j: int| 0 <= j < prev.len() && prev[j] == x;
        assert(prev.push(e)[j] == x);
    }
    assert forall|x: usize| prev.push(e).contains(x) implies prev.contains(x) || x == e by {
        let j = choose|j: int| 0 <= j < prev.push(e).len() && prev.push(e)[j] == x;
        if j < prev.len() {
            assert(prev[j] == x);
        }
    }
}

/// No two equal `Init` events stand in the log: within one tick, no slot is
/// initialized twice.
pub open spec fn init_events_distinct(log: Seq<RunEvent>) -> bool {
    forall|k1: int, k2: int| 0 <= k1 < log.len() && 0 <= k2 < log.len() && k1 != k2
        && (#[trigger] log[k1]) is Init ==> log[k1] != #[trigger] log[k2]
}

impl CommandManager {
    /// Third pass, first half: every owning occupied transient slot is
    /// initialized (once), advanced, and — if it reports itself finished or
    /// its interrupt flag is set — ended and queued for reclamation.
    #[verifier::loop_isolation(false)]
    #[verifier::rlimit(100)]
    fn tick_transients(&mut self) -> (res: (Vec<usize>, Ghost<Seq<RunEvent>>))
        requires
            old(self).wf(),
        ensures
            final(self).wf(),
            final(self).owners_table() == old(self).owners_table(),
            forall|s: u8| final(self).default_of(s) == old(self).default_of(s),
            final(self).default_count() == old(self).default_count(),
            forall|d: int| 0 <= d < old(self).default_count()
                ==> final(self).default_occupied(d) == old(self).default_occupied(d)
                    && final(self).default_slot_initialized(d)
                        == old(self).default_slot_initialized(d)
                    && final(self).default_slot_interrupted(d)
                        == old(self).default_slot_interrupted(d),
            final(self).scheduler_count() == old(self).scheduler_count(),
            final(self).suid_counter() == old(self).suid_counter(),
            final(self).transient_count() == old(self).transient_count(),
            forall|i: int| 0 <= i < old(self).transient_count() ==> {
                &&& final(self).slot_occupied(i) == old(self).slot_occupied(i)
                &&& final(self).slot_orphan(i) == old(self).slot_orphan(i)
                &&& final(self).slot_interrupted(i) == old(self).slot_interrupted(i)
                &&& final(self).cached_reqs(i) == old(self).cached_reqs(i)
                &&& final(self).slot_initialized(i) == (old(self).slot_initialized(i)
                    || (old(self).slot_occupied(i)
                        && old(self).slot_owning(CommandIndex::Command(i as usize))))
            },
            forall|ii: usize| #![trigger res.1@.contains(RunEvent::Init(CommandIndex::Command(ii)))]
                res.1@.contains(RunEvent::Init(CommandIndex::Command(ii)))
                <==> (ii as int) < old(self).transient_count()
                    && old(self).slot_occupied(ii as int)
                    && old(self).slot_owning(CommandIndex::Command(ii))
                    && !old(self).slot_initialized(ii as int),
            forall|ii: usize| #![trigger res.1@.contains(RunEvent::Periodic(CommandIndex::Command(ii)))]
                res.1@.contains(RunEvent::Periodic(CommandIndex::Command(ii)))
                <==> (ii as int) < old(self).transient_count()
                    && old(self).slot_occupied(ii as int)
                    && old(self).slot_owning(CommandIndex::Command(ii)),
            forall|ii: usize| #![trigger res.1@.contains(RunEvent::End(CommandIndex::Command(ii), true))]
                res.1@.contains(RunEvent::End(CommandIndex::Command(ii), true))
                <==> (ii as int) < old(self).transient_count()
                    && old(self).slot_occupied(ii as int)
                    && old(self).slot_owning(CommandIndex::Command(ii))
                    && old(self).slot_interrupted(ii as int),
            forall|ii: usize| #![trigger res.1@.contains(RunEvent::End(CommandIndex::Command(ii), false))]
                res.1@.contains(RunEvent::End(CommandIndex::Command(ii), false))
                ==> (ii as int) < old(self).transient_count()
                    && old(self).slot_occupied(ii as int)
                    && old(self).slot_owning(CommandIndex::Command(ii)),
            forall|d: usize| !#[trigger] res.1@.contains(RunEvent::Init(CommandIndex::DefaultCommand(d))),
            forall|d: usize| !#[trigger] res.1@.contains(RunEvent::Periodic(CommandIndex::DefaultCommand(d))),
            forall|d: usize| !#[trigger] res.1@.contains(RunEvent::End(CommandIndex::DefaultCommand(d), true)),
            forall|d: usize| !#[trigger] res.1@.contains(RunEvent::End(CommandIndex::DefaultCommand(d), false)),
            init_events_distinct(res.1@),
            forall|q: int| 0 <= q < res.0@.len()
                ==> ((#[trigger] res.0@[q]) as int) < old(self).transient_count(),
            forall|ii: usize| #![trigger res.0@.contains(ii)]
                res.0@.contains(ii)
                <==> (res.1@.contains(RunEvent::End(CommandIndex::Command(ii), false))
                    || res.1@.contains(RunEvent::End(CommandIndex::Command(ii), true))),
    {
        let ghost s0 = *old(self);
        let n = self.commands.len();
        let mut to_remove: Vec<usize> = Vec::new();
        let ghost mut log: Seq<RunEvent> = Seq::empty();
        let mut i: usize = 0;
        while i < n
            invariant
                n == self.commands@.len(),
                i <= n,
                self.wf(),
                self.requirements@ == s0.requirements@,
                self.cmd_orphan@ == s0.cmd_orphan@,
                self.cmd_interrupt@ == s0.cmd_interrupt@,
                self.cmd_requirements@ == s0.cmd_requirements@,
                self.default_commands@ == s0.default_commands@,
                self.default_interrupt@ == s0.default_interrupt@,
                self.default_initialized@ == s0.default_initialized@,
                self.subsystem_to_default@ == s0.subsystem_to_default@,
                self.cond_schedulers@ == s0.cond_schedulers@,
                self.suid == s0.suid,
                self.periodic_callbacks@ == s0.periodic_callbacks@,
                self.commands@.len() == s0.commands@.len(),
                forall|ii: int| 0 <= ii < n
                    ==> (#[trigger] self.commands@[ii]) is Some == s0.commands@[ii] is Some,
                self.cmd_initialized@.len() == s0.cmd_initialized@.len(),
                forall|ii: int| i <= ii < n
                    ==> #[trigger] self.cmd_initialized@[ii] == s0.cmd_initialized@[ii],
                forall|ii: int| 0 <= ii < i
                    ==> #[trigger] self.cmd_initialized@[ii] == (s0.cmd_initialized@[ii]
                        || (s0.slot_occupied(ii)
                            && s0.slot_owning(CommandIndex::Command(ii as usize)))),
                forall|ii: usize| #![trigger log.contains(RunEvent::Init(CommandIndex::Command(ii)))]
                    log.contains(RunEvent::Init(CommandIndex::Command(ii)))
                    <==> (ii as int) < i && s0.slot_occupied(ii as int)
                        && s0.slot_owning(CommandIndex::Command(ii))
                        && !s0.slot_initialized(ii as int),
                forall|ii: usize| #![trigger log.contains(RunEvent::Periodic(CommandIndex::Command(ii)))]
                    log.contains(RunEvent::Periodic(CommandIndex::Command(ii)))
                    <==> (ii as int) < i && s0.slot_occupied(ii as int)
                        && s0.slot_owning(CommandIndex::Command(ii)),
                forall|ii: usize| #![trigger log.contains(RunEvent::End(CommandIndex::Command(ii), true))]
                    log.contains(RunEvent::End(CommandIndex::Command(ii), true))
                    <==> (ii as int) < i && s0.slot_occupied(ii as int)
                        && s0.slot_owning(CommandIndex::Command(ii))
                        && s0.slot_interrupted(ii as int),
                forall|ii: usize| #![trigger log.contains(RunEvent::End(CommandIndex::Command(ii), false))]
                    log.contains(RunEvent::End(CommandIndex::Command(ii), false))
                    ==> (ii as int) < i && s0.slot_occupied(ii as int)
                        && s0.slot_owning(CommandIndex::Command(ii)),
                forall|d: usize| !#[trigger] log.contains(RunEvent::Init(CommandIndex::DefaultCommand(d))),
                forall|d: usize| !#[trigger] log.contains(RunEvent::Periodic(CommandIndex::DefaultCommand(d))),
                forall|d: usize| !#[trigger] log.contains(RunEvent::End(CommandIndex::DefaultCommand(d), true)),
                forall|d: usize| !#[trigger] log.contains(RunEvent::End(CommandIndex::DefaultCommand(d), false)),
                init_events_distinct(log),
                forall|q: int| 0 <= q < to_remove@.len()
                    ==> ((#[trigger] to_remove@[q]) as int) < n,
                forall|ii: usize| #![trigger to_remove@.contains(ii)]
                    to_remove@.contains(ii)
                    <==> (log.contains(RunEvent::End(CommandIndex::Command(ii), false))
                        || log.contains(RunEvent::End(CommandIndex::Command(ii), true))),
            decreases n - i,
        {
            proof {
                assert(self.slot_owning(CommandIndex::Command(i))
                    == s0.slot_owning(CommandIndex::Command(i)));
            }
            let ghost log_in = log;
            let owning = self.cmd_orphan[i] || owns_slot(&self.requirements, CommandIndex::Command(i));
            if owning {
                let slot = self.commands.remove(i);
                match slot {
                    Some(cmd) => {
                        let mut cur = cmd;
                        if !self.cmd_initialized[i] {
                            let (c2, _) = cur.lifecycle(LifecycleOp::Init);
                            cur = c2;
                            self.cmd_initialized[i] = true;
                            proof {
                                lemma_log_push(log, RunEvent::Init(CommandIndex::Command(i)));
                                lemma_init_distinct_push(log, RunEvent::Init(CommandIndex::Command(i)));
                                log = log.push(RunEvent::Init(CommandIndex::Command(i)));
                            }
                        }
                        let (c3, _) = cur.lifecycle(LifecycleOp::Periodic);
                        cur = c3;
                        proof {
                            lemma_log_push(log, RunEvent::Periodic(CommandIndex::Command(i)));
                            lemma_init_distinct_push(log, RunEvent::Periodic(CommandIndex::Command(i)));
                            log = log.push(RunEvent::Periodic(CommandIndex::Command(i)));
                        }
                        let (c4, fin) = cur.lifecycle(LifecycleOp::IsFinished);
                        cur = c4;
                        if fin {
                            let (c5, _) = cur.lifecycle(LifecycleOp::End(false));
                            cur = c5;
                            proof {
                                lemma_log_push(log, RunEvent::End(CommandIndex::Command(i), false));
                                lemma_init_distinct_push(log, RunEvent::End(CommandIndex::Command(i), false));
                                log = log.push(RunEvent::End(CommandIndex::Command(i), false));
                                lemma_usize_push(to_remove@, i);
                            }
                            to_remove.push(i);
                        }
                        if self.cmd_interrupt[i] {
                            let (c6, _) = cur.lifecycle(LifecycleOp::End(true));
                            cur = c6;
                            proof {
                                lemma_log_push(log, RunEvent::End(CommandIndex::Command(i), true));
                                lemma_init_distinct_push(log, RunEvent::End(CommandIndex::Command(i), true));
                                log = log.push(RunEvent::End(CommandIndex::Command(i), true));
                                lemma_usize_push(to_remove@, i);
                            }
                            to_remove.push(i);
                        }
                        let filled = Some(cur);
                        self.commands.insert(i, filled);
                    }
                    None => {
                        self.commands.insert(i, None);
                    }
                }
            }
            proof {
                assert forall|ii: usize| log.contains(RunEvent::Periodic(CommandIndex::Command(ii)))
                    implies (ii as int) < i + 1 && s0.slot_occupied(ii as int)
                        && s0.slot_owning(CommandIndex::Command(ii)) by {
                    if log_in.contains(RunEvent::Periodic(CommandIndex::Command(ii))) {
                        assert((ii as int) < i);
                    } else {
                        assert(ii == i);
                    }
                }
            }
            i += 1;
        }
        (to_remove, Ghost(log))
    }
}

impl CommandManager {
    /// Third pass, second half: every owning occupied default slot is
    /// initialized (once), advanced, and — while its interrupt flag stands —
    /// ended as interrupted; default slots are never reclaimed.
    #[verifier::loop_isolation(false)]
    #[verifier::rlimit(100)]
    fn tick_defaults(&mut self) -> (events: Ghost<Seq<RunEvent>>)
        requires
            old(self).wf(),
        ensures
            final(self).wf(),
            final(self).owners_table() == old(self).owners_table(),
            forall|s: u8| final(self).default_of(s) == old(self).default_of(s),
            final(self).default_count() == old(self).default_count(),
            final(self).scheduler_count() == old(self).scheduler_count(),
            final(self).suid_counter() == old(self).suid_counter(),
            final(self).transient_count() == old(self).transient_count(),
            forall|i: int| 0 <= i < old(self).transient_count() ==> {
                &&& final(self).slot_occupied(i) == old(self).slot_occupied(i)
                &&& final(self).slot_orphan(i) == old(self).slot_orphan(i)
                &&& final(self).slot_interrupted(i) == old(self).slot_interrupted(i)
                &&& final(self).slot_initialized(i) == old(self).slot_initialized(i)
                &&& final(self).cached_reqs(i) == old(self).cached_reqs(i)
            },
            forall|d: int| 0 <= d < old(self).default_count() ==> {
                &&& final(self).default_occupied(d) == old(self).default_occupied(d)
                &&& final(self).default_slot_interrupted(d)
                    == old(self).default_slot_interrupted(d)
                &&& final(self).default_slot_initialized(d)
                    == (old(self).default_slot_initialized(d)
                        || (old(self).default_occupied(d)
                            && old(self).slot_owning(CommandIndex::DefaultCommand(d as usize))))
            },
            forall|dd: usize| #![trigger events@.contains(RunEvent::Init(CommandIndex::DefaultCommand(dd)))]
                events@.contains(RunEvent::Init(CommandIndex::DefaultCommand(dd)))
                <==> (dd as int) < old(self).default_count()
                    && old(self).default_occupied(dd as int)
                    && old(self).slot_owning(CommandIndex::DefaultCommand(dd))
                    && !old(self).default_slot_initialized(dd as int),
            forall|dd: usize| #![trigger events@.contains(RunEvent::Periodic(CommandIndex::DefaultCommand(dd)))]
                events@.contains(RunEvent::Periodic(CommandIndex::DefaultCommand(dd)))
                <==> (dd as int) < old(self).default_count()
                    && old(self).default_occupied(dd as int)
                    && old(self).slot_owning(CommandIndex::DefaultCommand(dd)),
            forall|dd: usize| #![trigger events@.contains(RunEvent::End(CommandIndex::DefaultCommand(dd), true))]
                events@.contains(RunEvent::End(CommandIndex::DefaultCommand(dd), true))
                <==> (dd as int) < old(self).default_count()
                    && old(self).default_occupied(dd as int)
                    && old(self).slot_owning(CommandIndex::DefaultCommand(dd))
                    && old(self).default_slot_interrupted(dd as int),
            forall|dd: usize| #![trigger events@.contains(RunEvent::End(CommandIndex::DefaultCommand(dd), false))]
                events@.contains(RunEvent::End(CommandIndex::DefaultCommand(dd), false))
                ==> (dd as int) < old(self).default_count()
                    && old(self).default_occupied(dd as int)
                    && old(self).slot_owning(CommandIndex::DefaultCommand(dd)),
            forall|ii: usize| !#[trigger] events@.contains(RunEvent::Init(CommandIndex::Command(ii))),
            forall|ii: usize| !#[trigger] events@.contains(RunEvent::Periodic(CommandIndex::Command(ii))),
            forall|ii: usize| !#[trigger] events@.contains(RunEvent::End(CommandIndex::Command(ii), true)),
            forall|ii: usize| !#[trigger] events@.contains(RunEvent::End(CommandIndex::Command(ii), false)),
            init_events_distinct(events@),
    {
        let ghost s0 = *old(self);
        let n = self.default_commands.len();
        let ghost mut log: Seq<RunEvent> = Seq::empty();
        let mut d: usize = 0;
        while d < n
            invariant
                n == self.default_commands@.len(),
                d <= n,
                self.wf(),
                self.requirements@ == s0.requirements@,
                self.commands@ == s0.commands@,
                self.cmd_orphan@ == s0.cmd_orphan@,
                self.cmd_interrupt@ == s0.cmd_interrupt@,
                self.cmd_initialized@ == s0.cmd_initialized@,
                self.cmd_requirements@ == s0.cmd_requirements@,
                self.default_interrupt@ == s0.default_interrupt@,
                self.subsystem_to_default@ == s0.subsystem_to_default@,
                self.cond_schedulers@ == s0.cond_schedulers@,
                self.suid == s0.suid,
                self.periodic_callbacks@ == s0.periodic_callbacks@,
                self.default_commands@.len() == s0.default_commands@.len(),
                forall|dd: int| 0 <= dd < n
                    ==> (#[trigger] self.default_commands@[dd]) is Some
                        == s0.default_commands@[dd] is Some,
                self.default_initialized@.len() == s0.default_initialized@.len(),
                forall|dd: int| d <= dd < n
                    ==> #[trigger] self.default_initialized@[dd] == s0.default_initialized@[dd],
                forall|dd: int| 0 <= dd < d
                    ==> #[trigger] self.default_initialized@[dd]
                        == (s0.default_initialized@[dd]
                            || (s0.default_occupied(dd)
                                && s0.slot_owning(CommandIndex::DefaultCommand(dd as usize)))),
                forall|dd: usize| #![trigger log.contains(RunEvent::Init(CommandIndex::DefaultCommand(dd)))]
                    log.contains(RunEvent::Init(CommandIndex::DefaultCommand(dd)))
                    <==> (dd as int) < d && s0.default_occupied(dd as int)
                        && s0.slot_owning(CommandIndex::DefaultCommand(dd))
                        && !s0.default_slot_initialized(dd as int),
                forall|dd: usize| #![trigger log.contains(RunEvent::Periodic(CommandIndex::DefaultCommand(dd)))]
                    log.contains(RunEvent::Periodic(CommandIndex::DefaultCommand(dd)))
                    <==> (dd as int) < d && s0.default_occupied(dd as int)
                        && s0.slot_owning(CommandIndex::DefaultCommand(dd)),
                forall|dd: usize| #![trigger log.contains(RunEvent::End(CommandIndex::DefaultCommand(dd), true))]
                    log.contains(RunEvent::End(CommandIndex::DefaultCommand(dd), true))
                    <==> (dd as int) < d && s0.default_occupied(dd as int)
                        && s0.slot_owning(CommandIndex::DefaultCommand(dd))
                        && s0.default_slot_interrupted(dd as int),
                forall|dd: usize| #![trigger log.contains(RunEvent::End(CommandIndex::DefaultCommand(dd), false))]
                    log.contains(RunEvent::End(CommandIndex::DefaultCommand(dd), false))
                    ==> (dd as int) < d && s0.default_occupied(dd as int)
                        && s0.slot_owning(CommandIndex::DefaultCommand(dd)),
                forall|ii: usize| !#[trigger] log.contains(RunEvent::Init(CommandIndex::Command(ii))),
                forall|ii: usize| !#[trigger] log.contains(RunEvent::Periodic(CommandIndex::Command(ii))),
                forall|ii: usize| !#[trigger] log.contains(RunEvent::End(CommandIndex::Command(ii), true)),
                forall|ii: usize| !#[trigger] log.contains(RunEvent::End(CommandIndex::Command(ii), false)),
                init_events_distinct(log),
            decreases n - d,
        {
            proof {
                assert(self.slot_owning(CommandIndex::DefaultCommand(d))
                    == s0.slot_owning(CommandIndex::DefaultCommand(d)));
            }
            let owning = owns_slot(&self.requirements, CommandIndex::DefaultCommand(d));
            if owning {
                let slot = self.default_commands.remove(d);
                match slot {
                    Some(cmd) => {
                        let mut cur = cmd;
                        if !self.default_initialized[d] {
                            let (c2, _) = cur.lifecycle(LifecycleOp::Init);
                            cur = c2;
                            self.default_initialized[d] = true;
                            proof {
                                lemma_log_push(log, RunEvent::Init(CommandIndex::DefaultCommand(d)));
                                lemma_init_distinct_push(log, RunEvent::Init(CommandIndex::DefaultCommand(d)));
                                log = log.push(RunEvent::Init(CommandIndex::DefaultCommand(d)));
                            }
                        }
                        let (c3, _) = cur.lifecycle(LifecycleOp::Periodic);
                        cur = c3;
                        proof {
                            lemma_log_push(log, RunEvent::Periodic(CommandIndex::DefaultCommand(d)));
                            lemma_init_distinct_push(log, RunEvent::Periodic(CommandIndex::DefaultCommand(d)));
                            log = log.push(RunEvent::Periodic(CommandIndex::DefaultCommand(d)));
                        }
                        let (c4, fin) = cur.lifecycle(LifecycleOp::IsFinished);
                        cur = c4;
                        if fin {
                            let (c5, _) = cur.lifecycle(LifecycleOp::End(false));
                            cur = c5;
                            proof {
                                lemma_log_push(log, RunEvent::End(CommandIndex::DefaultCommand(d), false));
                                lemma_init_distinct_push(log, RunEvent::End(CommandIndex::DefaultCommand(d), false));
                                log = log.push(RunEvent::End(CommandIndex::DefaultCommand(d), false));
                            }
                        }
                        if self.default_interrupt[d] {
                            let (c6, _) = cur.lifecycle(LifecycleOp::End(true));
                            cur = c6;
                            proof {
                                lemma_log_push(log, RunEvent::End(CommandIndex::DefaultCommand(d), true));
                                lemma_init_distinct_push(log, RunEvent::End(CommandIndex::DefaultCommand(d), true));
                                log = log.push(RunEvent::End(CommandIndex::DefaultCommand(d), true));
                            }
                        }
                        let filled = Some(cur);
                        self.default_commands.insert(d, filled);
                    }
                    None => {
                        self.default_commands.insert(d, None);
                    }
                }
            }
            d += 1;
        }
        Ghost(log)
    }
}

/// Membership in one-longer prefixes of the removal queue.
proof fn lemma_prefix_grow(s: Seq<usize>, q: int)
    requires
        0 <= q < s.len(),
    ensures
        forall|x: usize| #[trigger] s.subrange(0, q + 1).contains(x)
            <==> s.subrange(0, q).contains(x) || x == s[q],
{
    let a = s.subrange(0, q);
    let b = s.subrange(0, q + 1);
    assert forall|x: usize| b.contains(x) implies a.contains(x) || x == s[q] by {
        let j = choose|j: int| 0 <= j < b.len() && b[j] == x;
        if j < q {
            assert(a[j] == x);
        } else {
            assert(b[j] == s[q]);
        }
    }
    assert forall|x: usize| a.contains(x) || x == s[q] implies b.contains(x) by {
        if a.contains(x) {
            let j = choose|j: int| 0 <= j < a.len() && a[j] == x;
            assert(b[j] == x);
        } else {
            assert(b[q] == s[q]);
        }
    }
}

impl CommandManager {
    /// What reclamation leaves as the owner of `s` once the slots in
    /// `removed` have been freed: a freed owner falls back to the
    /// subsystem's default slot (or to no owner where none is registered);
    /// every other owner stands.
    pub open spec fn owner_after_reclaim(&self, s: u8, removed: Seq<usize>) -> Option<
        CommandIndex,
    > {
        match self.owner_of(s) {
            Some(CommandIndex::Command(ii)) => if removed.contains(ii) {
                self.default_of(s)
            } else {
                self.owner_of(s)
            },
            _ => self.owner_of(s),
        }
    }

    /// Third pass, last step: every queued transient slot is freed — its
    /// initialization mark cleared, its storage emptied — and each
    /// subsystem it still owned falls back to its default slot.
    #[verifier::loop_isolation(false)]
    #[verifier::rlimit(100)]
    #[verifier::spinoff_prover]
    fn reclaim(&mut self, to_remove: Vec<usize>)
        requires
            old(self).wf(),
            forall|q: int| 0 <= q < to_remove@.len()
                ==> ((#[trigger] to_remove@[q]) as int) < old(self).transient_count(),
        ensures
            final(self).wf(),
            final(self).transient_count() == old(self).transient_count(),
            final(self).default_count() == old(self).default_count(),
            forall|s: u8| final(self).default_of(s) == old(self).default_of(s),
            forall|d: int| 0 <= d < old(self).default_count()
                ==> final(self).default_occupied(d) == old(self).default_occupied(d)
                    && final(self).default_slot_initialized(d)
                        == old(self).default_slot_initialized(d)
                    && final(self).default_slot_interrupted(d)
                        == old(self).default_slot_interrupted(d),
            final(self).scheduler_count() == old(self).scheduler_count(),
            final(self).suid_counter() == old(self).suid_counter(),
            forall|i: usize| (i as int) < old(self).transient_count() ==> {
                &&& final(self).slot_occupied(i as int)
                    == (old(self).slot_occupied(i as int) && !to_remove@.contains(i))
                &&& final(self).slot_initialized(i as int)
                    == (old(self).slot_initialized(i as int) && !to_remove@.contains(i))
                &&& final(self).slot_orphan(i as int)
                    == (old(self).slot_orphan(i as int) && !to_remove@.contains(i))
                &&& final(self).slot_interrupted(i as int)
                    == old(self).slot_interrupted(i as int)
                &&& (!to_remove@.contains(i)
                    ==> final(self).cached_reqs(i as int) == old(self).cached_reqs(i as int))
            },
            forall|s: u8| final(self).owner_of(s)
                == old(self).owner_after_reclaim(s, to_remove@),
    {
        let ghost s0 = *old(self);
        let nq = to_remove.len();
        let mut q: usize = 0;
        while q < nq
            invariant
                nq == to_remove@.len(),
                q <= nq,
                self.wf(),
                self.default_commands@ == s0.default_commands@,
                self.default_interrupt@ == s0.default_interrupt@,
                self.default_initialized@ == s0.default_initialized@,
                self.subsystem_to_default@ == s0.subsystem_to_default@,
                self.cond_schedulers@ == s0.cond_schedulers@,
                self.suid == s0.suid,
                self.periodic_callbacks@ == s0.periodic_callbacks@,
                self.commands@.len() == s0.commands@.len(),
                self.cmd_interrupt@ == s0.cmd_interrupt@,
                self.cmd_initialized@.len() == s0.cmd_initialized@.len(),
                self.cmd_orphan@.len() == s0.cmd_orphan@.len(),
                self.cmd_requirements@.len() == s0.cmd_requirements@.len(),
                forall|i: usize| (i as int) < s0.transient_count() ==> {
                    &&& self.slot_occupied(i as int) == (s0.slot_occupied(i as int)
                        && !to_remove@.subrange(0, q as int).contains(i))
                    &&& self.slot_initialized(i as int) == (s0.slot_initialized(i as int)
                        && !to_remove@.subrange(0, q as int).contains(i))
                    &&& self.slot_orphan(i as int) == (s0.slot_orphan(i as int)
                        && !to_remove@.subrange(0, q as int).contains(i))
                    &&& (!to_remove@.subrange(0, q as int).contains(i)
                        ==> self.cached_reqs(i as int) == s0.cached_reqs(i as int))
                },
                forall|s: u8| lookup(self.requirements@, s)
                    == s0.owner_after_reclaim(s, to_remove@.subrange(0, q as int)),
            decreases nq - q,
        {
            let i = to_remove[q];
            let ghost freed_pre = to_remove@.subrange(0, q as int);
            let ghost freed_post = to_remove@.subrange(0, q as int + 1);
            proof {
                lemma_prefix_grow(to_remove@, q as int);
            }
            self.cmd_initialized[i] = false;
            if self.commands[i].is_some() {
                let ghost mid = *self;
                let cache = self.cmd_requirements[i].clone();
                let nk = cache.len();
                let mut k: usize = 0;
                while k < nk
                    invariant
                        nk == cache@.len(),
                        k <= nk,
                        cache@ == mid.cached_reqs(i as int),
                        i < self.commands@.len(),
                        self.commands@ == mid.commands@,
                        self.cmd_interrupt@ == mid.cmd_interrupt@,
                        self.cmd_initialized@ == mid.cmd_initialized@,
                        self.cmd_orphan@ == mid.cmd_orphan@,
                        self.cmd_requirements@ == mid.cmd_requirements@,
                        self.default_commands@ == mid.default_commands@,
                        self.default_interrupt@ == mid.default_interrupt@,
                        self.default_initialized@ == mid.default_initialized@,
                        self.subsystem_to_default@ == mid.subsystem_to_default@,
                        self.cond_schedulers@ == mid.cond_schedulers@,
                        self.suid == mid.suid,
                        self.periodic_callbacks@ == mid.periodic_callbacks@,
                        self.wf(),
                        forall|kk: int| 0 <= kk < k
                            ==> lookup(self.requirements@, #[trigger] cache@[kk])
                                != Some(CommandIndex::Command(i)),
                        forall|s: u8| lookup(self.requirements@, s) == lookup(mid.requirements@, s)
                            || (lookup(mid.requirements@, s) == Some(CommandIndex::Command(i))
                                && lookup(self.requirements@, s) == lookup(
                                    mid.subsystem_to_default@, s)),
                    decreases nk - k,
                {
                    let sreq = cache[k];
                    let cur = map_find(&self.requirements, sreq);
                    let should_release = match cur {
                        Some(ci) => ci == CommandIndex::Command(i),
                        None => false,
                    };
                    if should_release {
                        let ghost pre = self.requirements@;
                        map_remove(&mut self.requirements, sreq);
                        proof {
                            assert forall|j: int| 0 <= j < self.requirements@.len()
                                implies match (#[trigger] self.requirements@[j]).1 {
                                    CommandIndex::Command(iv) => iv < self.commands@.len()
                                        && self.commands@[iv as int] is Some
                                        && self.cmd_requirements@[iv as int]@.contains(
                                            self.requirements@[j].0),
                                    CommandIndex::DefaultCommand(dv) => dv
                                        < self.default_commands@.len(),
                                } by {
                                let prev = self.requirements@[j];
                                assert(pre.contains(prev));
                                let jj = choose|jj: int| 0 <= jj < pre.len() && pre[jj] == prev;
                            }
                        }
                        let dflt = map_find(&self.subsystem_to_default, sreq);
                        match dflt {
                            Some(dc) => {
                                let ghost pre2 = self.requirements@;
                                map_insert(&mut self.requirements, sreq, dc);
                                proof {
                                    let jd = table_idx(self.subsystem_to_default@, sreq);
                                    assert(self.subsystem_to_default@[jd].1 == dc);
                                    assert forall|j: int| 0 <= j < self.requirements@.len()
                                        implies match (#[trigger] self.requirements@[j]).1 {
                                            CommandIndex::Command(iv) => iv < self.commands@.len()
                                                && self.commands@[iv as int] is Some
                                                && self.cmd_requirements@[iv as int]@.contains(
                                                    self.requirements@[j].0),
                                            CommandIndex::DefaultCommand(dv) => dv
                                                < self.default_commands@.len(),
                                        } by {
                                        if self.requirements@[j] != (sreq, dc) {
                                            let prev = self.requirements@[j];
                                            assert(pre2.contains(prev));
                                            let jj = choose|jj: int| 0 <= jj < pre2.len()
                                                && pre2[jj] == prev;
                                        }
                                    }
                                }
                            }
                            None => {}
                        }
                    }
                    k += 1;
                }
                proof {
                    assert forall|s: u8| lookup(self.requirements@, s)
                        != Some(CommandIndex::Command(i)) by {
                        if lookup(self.requirements@, s) == Some(CommandIndex::Command(i)) {
                            let js = table_idx(self.requirements@, s);
                            assert(0 <= js < self.requirements@.len()
                                && self.requirements@[js].0 == s);
                            assert(self.requirements@[js].1 == CommandIndex::Command(i));
                            assert(self.cmd_requirements@[i as int]@.contains(s));
                            let kk = choose|kk: int| 0 <= kk < cache@.len() && cache@[kk] == s;
                            assert(lookup(self.requirements@, cache@[kk])
                                != Some(CommandIndex::Command(i)));
                        }
                    }
                }
                self.commands[i] = None;
                self.cmd_orphan[i] = false;
                let empty_cache: Vec<u8> = Vec::new();
                self.cmd_requirements[i] = empty_cache;
                proof {
                    assert forall|j: int| 0 <= j < self.requirements@.len()
                        implies match (#[trigger] self.requirements@[j]).1 {
                            CommandIndex::Command(iv) => iv < self.commands@.len()
                                && self.commands@[iv as int] is Some
                                && self.cmd_requirements@[iv as int]@.contains(
                                    self.requirements@[j].0),
                            CommandIndex::DefaultCommand(dv) => dv < self.default_commands@.len(),
                        } by {
                        match self.requirements@[j].1 {
                            CommandIndex::Command(iv) => {
                                assert(iv != i);
                            }
                            CommandIndex::DefaultCommand(_) => {}
                        }
                    }
                }
            }
            q += 1;
        }
        proof {
            assert(to_remove@.subrange(0, nq as int) == to_remove@);
        }
    }
}

/// Was slot `ii` freed according to the tick's event log?
pub open spec fn freed_in(events: Seq<RunEvent>, ii: int) -> bool {
    ||| events.contains(RunEvent::End(CommandIndex::Command(ii as usize), false))
    ||| events.contains(RunEvent::End(CommandIndex::Command(ii as usize), true))
}

impl CommandManager {
    /// Ownership of `s` with every ownerless registered subsystem fallen
    /// back to its default slot, as the tick's first pass leaves it.
    pub open spec fn owner_after_defaults(&self, s: u8) -> Option<CommandIndex> {
        if self.owner_of(s) is Some {
            self.owner_of(s)
        } else {
            self.default_of(s)
        }
    }

    /// Ownership of `s` after the command pass: an owner freed by the pass
    /// falls back to the registered default, every other owner stands.
    pub open spec fn owner_after_tick(&self, s: u8, events: Seq<RunEvent>) -> Option<
        CommandIndex,
    > {
        match self.owner_of(s) {
            Some(CommandIndex::Command(ii)) => if freed_in(events, ii as int) {
                self.default_of(s)
            } else {
                self.owner_of(s)
            },
            _ => self.owner_of(s),
        }
    }

    /// With distinct keys, a slot is pointed at by some table entry exactly
    /// when it is some subsystem's owner.
    proof fn lemma_owns_any_iff(&self)
        requires
            self.wf(),
        ensures
            forall|idx: CommandIndex| #[trigger] self.owns_any(idx)
                <==> exists|s: u8| self.owner_of(s) == Some(idx),
    {
        assert forall|idx: CommandIndex| self.owns_any(idx)
            implies exists|s: u8| self.owner_of(s) == Some(idx) by {
            let j = choose|j: int| 0 <= j < self.requirements@.len()
                && (#[trigger] self.requirements@[j]).1 == idx;
            lemma_table_idx_is(self.requirements@, self.requirements@[j].0, j);
            assert(self.owner_of(self.requirements@[j].0) == Some(idx));
        }
        assert forall|idx: CommandIndex| (exists|s: u8| self.owner_of(s) == Some(idx))
            implies self.owns_any(idx) by {
            let s = choose|s: u8| self.owner_of(s) == Some(idx);
            assert(table_has(self.requirements@, s));
            let j = table_idx(self.requirements@, s);
            assert(self.requirements@[j].1 == idx);
        }
    }

    /// Third pass of a tick, whole: every owning slot (transient, then
    /// default) is advanced through its lifecycle, and finished or
    /// interrupted transient slots are freed with their subsystems falling
    /// back to the defaults.
    #[verifier::rlimit(100)]
    fn run_commands(&mut self) -> (events: Ghost<Seq<RunEvent>>)
        requires
            old(self).wf(),
        ensures
            final(self).wf(),
            final(self).transient_count() == old(self).transient_count(),
            final(self).default_count() == old(self).default_count(),
            forall|s: u8| final(self).default_of(s) == old(self).default_of(s),
            forall|d: int| 0 <= d < old(self).default_count()
                ==> final(self).default_occupied(d) == old(self).default_occupied(d)
                    && final(self).default_slot_interrupted(d)
                        == old(self).default_slot_interrupted(d),
            final(self).scheduler_count() == old(self).scheduler_count(),
            final(self).suid_counter() == old(self).suid_counter(),
            forall|ii: usize| #![trigger events@.contains(RunEvent::Init(CommandIndex::Command(ii)))]
                events@.contains(RunEvent::Init(CommandIndex::Command(ii)))
                <==> (ii as int) < old(self).transient_count()
                    && old(self).slot_occupied(ii as int)
                    && old(self).slot_owning(CommandIndex::Command(ii))
                    && !old(self).slot_initialized(ii as int),
            forall|ii: usize| #![trigger events@.contains(RunEvent::Periodic(CommandIndex::Command(ii)))]
                events@.contains(RunEvent::Periodic(CommandIndex::Command(ii)))
                <==> (ii as int) < old(self).transient_count()
                    && old(self).slot_occupied(ii as int)
                    && old(self).slot_owning(CommandIndex::Command(ii)),
            forall|ii: usize| #![trigger events@.contains(RunEvent::End(CommandIndex::Command(ii), true))]
                events@.contains(RunEvent::End(CommandIndex::Command(ii), true))
                <==> (ii as int) < old(self).transient_count()
                    && old(self).slot_occupied(ii as int)
                    && old(self).slot_owning(CommandIndex::Command(ii))
                    && old(self).slot_interrupted(ii as int),
            forall|ii: usize| #![trigger events@.contains(RunEvent::End(CommandIndex::Command(ii), false))]
                events@.contains(RunEvent::End(CommandIndex::Command(ii), false))
                ==> (ii as int) < old(self).transient_count()
                    && old(self).slot_occupied(ii as int)
                    && old(self).slot_owning(CommandIndex::Command(ii)),
            forall|dd: usize| #![trigger events@.contains(RunEvent::Init(CommandIndex::DefaultCommand(dd)))]
                events@.contains(RunEvent::Init(CommandIndex::DefaultCommand(dd)))
                <==> (dd as int) < old(self).default_count()
                    && old(self).default_occupied(dd as int)
                    && old(self).slot_owning(CommandIndex::DefaultCommand(dd))
                    && !old(self).default_slot_initialized(dd as int),
            forall|dd: usize| #![trigger events@.contains(RunEvent::Periodic(CommandIndex::DefaultCommand(dd)))]
                events@.contains(RunEvent::Periodic(CommandIndex::DefaultCommand(dd)))
                <==> (dd as int) < old(self).default_count()
                    && old(self).default_occupied(dd as int)
                    && old(self).slot_owning(CommandIndex::DefaultCommand(dd)),
            forall|dd: usize| #![trigger events@.contains(RunEvent::End(CommandIndex::DefaultCommand(dd), true))]
                events@.contains(RunEvent::End(CommandIndex::DefaultCommand(dd), true))
                <==> (dd as int) < old(self).default_count()
                    && old(self).default_occupied(dd as int)
                    && old(self).slot_owning(CommandIndex::DefaultCommand(dd))
                    && old(self).default_slot_interrupted(dd as int),
            forall|dd: usize| #![trigger events@.contains(RunEvent::End(CommandIndex::DefaultCommand(dd), false))]
                events@.contains(RunEvent::End(CommandIndex::DefaultCommand(dd), false))
                ==> (dd as int) < old(self).default_count()
                    && old(self).default_occupied(dd as int)
                    && old(self).slot_owning(CommandIndex::DefaultCommand(dd)),
            init_events_distinct(events@),
            forall|i: int| #![trigger final(self).slot_occupied(i)]
                0 <= i < old(self).transient_count()
                ==> final(self).slot_occupied(i)
                    == (old(self).slot_occupied(i) && !freed_in(events@, i)),
            forall|i: int| #![trigger final(self).slot_initialized(i)]
                0 <= i < old(self).transient_count()
                ==> final(self).slot_initialized(i)
                    == ((old(self).slot_initialized(i)
                        || (old(self).slot_occupied(i)
                            && old(self).slot_owning(CommandIndex::Command(i as usize))))
                        && !freed_in(events@, i)),
            forall|i: int| #![trigger final(self).slot_orphan(i)]
                0 <= i < old(self).transient_count()
                ==> final(self).slot_orphan(i)
                    == (old(self).slot_orphan(i) && !freed_in(events@, i)),
            forall|i: int| #![trigger final(self).slot_interrupted(i)]
                0 <= i < old(self).transient_count()
                ==> final(self).slot_interrupted(i) == old(self).slot_interrupted(i),
            forall|d: int| 0 <= d < old(self).default_count()
                ==> final(self).default_slot_initialized(d)
                    == (old(self).default_slot_initialized(d)
                        || (old(self).default_occupied(d)
                            && old(self).slot_owning(CommandIndex::DefaultCommand(d as usize)))),
            forall|s: u8| final(self).owner_of(s) == old(self).owner_after_tick(s, events@),
    {
        let ghost s0 = *old(self);
        let n0 = self.commands.len();
        proof {
            assert(s0.transient_count() == n0 as int);
        }
        let (to_remove, t_log) = self.tick_transients();
        let ghost s1 = *self;
        let d_log = self.tick_defaults();
        let ghost s2 = *self;
        let ghost total = t_log@ + d_log@;
        proof {
            lemma_log_concat(t_log@, d_log@);
            assert(forall|idx: CommandIndex| s1.owns_any(idx) == s0.owns_any(idx));
            assert(forall|idx: CommandIndex| s2.owns_any(idx) == s0.owns_any(idx));
            assert(forall|i: usize| s1.slot_owning(CommandIndex::Command(i))
                == s0.slot_owning(CommandIndex::Command(i)));
            assert(forall|dd: usize| s1.slot_owning(CommandIndex::DefaultCommand(dd))
                == s0.slot_owning(CommandIndex::DefaultCommand(dd)));
            // Init events of the two halves never coincide.
            assert forall|k1: int, k2: int| 0 <= k1 < total.len() && 0 <= k2 < total.len()
                && k1 != k2 && (#[trigger] total[k1]) is Init
                implies total[k1] != #[trigger] total[k2] by {
                if k1 < t_log@.len() && k2 < t_log@.len() {
                    assert(t_log@[k1] == total[k1] && t_log@[k2] == total[k2]);
                } else if k1 >= t_log@.len() && k2 >= t_log@.len() {
                    assert(d_log@[k1 - t_log@.len()] == total[k1]
                        && d_log@[k2 - t_log@.len()] == total[k2]);
                } else if k1 < t_log@.len() {
                    assert(t_log@[k1] == total[k1]);
                    assert(d_log@[k2 - t_log@.len()] == total[k2]);
                    if total[k1] == total[k2] {
                        assert(t_log@.contains(total[k1]));
                        assert(d_log@.contains(total[k1]));
                        match total[k1] {
                            RunEvent::Init(CommandIndex::Command(ii)) => {
                                assert(!d_log@.contains(RunEvent::Init(CommandIndex::Command(ii))));
                            }
                            RunEvent::Init(CommandIndex::DefaultCommand(dd)) => {
                                assert(!t_log@.contains(RunEvent::Init(CommandIndex::DefaultCommand(dd))));
                            }
                            _ => {}
                        }
                    }
                } else {
                    assert(d_log@[k1 - t_log@.len()] == total[k1]);
                    assert(t_log@[k2] == total[k2]);
                    if total[k1] == total[k2] {
                        assert(d_log@.contains(total[k1]));
                        assert(t_log@.contains(total[k1]));
                        match total[k1] {
                            RunEvent::Init(CommandIndex::Command(ii)) => {
                                assert(!d_log@.contains(RunEvent::Init(CommandIndex::Command(ii))));
                            }
                            RunEvent::Init(CommandIndex::DefaultCommand(dd)) => {
                                assert(!t_log@.contains(RunEvent::Init(CommandIndex::DefaultCommand(dd))));
                            }
                            _ => {}
                        }
                    }
                }
            }
            // The removal queue matches the freed set of the whole log.
            assert forall|ii: usize| to_remove@.contains(ii) <==> freed_in(total, ii as int) by {
                assert(total.contains(RunEvent::End(CommandIndex::Command(ii), false))
                    == t_log@.contains(RunEvent::End(CommandIndex::Command(ii), false)));
                assert(total.contains(RunEvent::End(CommandIndex::Command(ii), true))
                    == t_log@.contains(RunEvent::End(CommandIndex::Command(ii), true)));
            }
        }
        self.reclaim(to_remove);
        proof {
            assert forall|s: u8| self.owner_of(s) == s0.owner_after_tick(s, total) by {
                assert(self.owner_of(s) == s2.owner_after_reclaim(s, to_remove@));
                assert(s2.owner_of(s) == s0.owner_of(s));
                assert(s2.default_of(s) == s0.default_of(s));
            }
            assert forall|i: int| 0 <= i < s0.transient_count() implies {
                &&& self.slot_occupied(i) == (s0.slot_occupied(i) && !freed_in(total, i))
                &&& self.slot_initialized(i) == ((s0.slot_initialized(i)
                    || (s0.slot_occupied(i)
                        && s0.slot_owning(CommandIndex::Command(i as usize))))
                    && !freed_in(total, i))
                &&& self.slot_orphan(i) == (s0.slot_orphan(i) && !freed_in(total, i))
                &&& self.slot_interrupted(i) == s0.slot_interrupted(i)
            } by {
                let iu = i as usize;
                assert(i < n0 as int);
                assert(iu as int == i);
                assert(to_remove@.contains(iu) == freed_in(total, iu as int));
                assert(self.slot_occupied(iu as int)
                    == (s2.slot_occupied(iu as int) && !to_remove@.contains(iu)));
                assert(self.slot_initialized(iu as int)
                    == (s2.slot_initialized(iu as int) && !to_remove@.contains(iu)));
                assert(self.slot_orphan(iu as int)
                    == (s2.slot_orphan(iu as int) && !to_remove@.contains(iu)));
                assert(self.slot_interrupted(iu as int) == s2.slot_interrupted(iu as int));
                assert(s2.slot_occupied(i) == s1.slot_occupied(i));
                assert(s2.slot_initialized(i) == s1.slot_initialized(i));
                assert(s2.slot_orphan(i) == s1.slot_orphan(i));
                assert(s2.slot_interrupted(i) == s1.slot_interrupted(i));
                assert(s1.slot_occupied(i) == s0.slot_occupied(i));
                assert(s1.slot_orphan(i) == s0.slot_orphan(i));
                assert(s1.slot_interrupted(i) == s0.slot_interrupted(i));
                assert(s1.slot_initialized(i) == (s0.slot_initialized(i)
                    || (s0.slot_occupied(i)
                        && s0.slot_owning(CommandIndex::Command(i as usize)))));
            }
        }
        Ghost(total)
    }
}

impl CommandManager {
    /// Is default slot `d` the owner of some subsystem once ownerless
    /// subsystems have fallen back to their defaults?
    pub open spec fn default_owning(&self, d: usize) -> bool {
        exists|s: u8| self.owner_after_defaults(s) == Some(CommandIndex::DefaultCommand(d))
    }

    /// Ownership of `s` at the end of a tick that starts from this state
    /// and whose command pass produced `events` (with no conditional
    /// schedulers in between).
    pub open spec fn owner_after_run(&self, s: u8, events: Seq<RunEvent>) -> Option<
        CommandIndex,
    > {
        match self.owner_after_defaults(s) {
            Some(CommandIndex::Command(ii)) => if freed_in(events, ii as int) {
                self.default_of(s)
            } else {
                self.owner_after_defaults(s)
            },
            _ => self.owner_after_defaults(s),
        }
    }

    /// One tick.  In order: every subsystem callback runs and ownerless
    /// registered subsystems fall back to their default slots; every
    /// conditional scheduler is polled; every owning slot is advanced
    /// through its lifecycle (`init` exactly once per contiguous ownership
    /// period — see the `Init` clauses — then `periodic`, then `end` when
    /// finished or interrupted), and finished or interrupted transient
    /// slots are freed for reuse.  The returned event log says exactly
    /// which lifecycle calls the command pass made.
    #[verifier::rlimit(100)]
    pub fn run(&mut self) -> (events: Ghost<Seq<RunEvent>>)
        requires
            old(self).wf(),
        ensures
            final(self).wf(),
            final(self).default_count() == old(self).default_count(),
            forall|s: u8| final(self).default_of(s) == old(self).default_of(s),
            forall|d: int| 0 <= d < old(self).default_count()
                ==> final(self).default_occupied(d) == old(self).default_occupied(d),
            final(self).scheduler_count() == old(self).scheduler_count(),
            final(self).suid_counter() == old(self).suid_counter(),
            forall|s: u8| old(self).default_of(s) is Some ==> final(self).owner_of(s) is Some,
            old(self).scheduler_count() == 0 ==> {
                &&& final(self).transient_count() == old(self).transient_count()
                &&& (forall|ii: usize| #![trigger events@.contains(RunEvent::Init(CommandIndex::Command(ii)))]
                    events@.contains(RunEvent::Init(CommandIndex::Command(ii)))
                    <==> (ii as int) < old(self).transient_count()
                        && old(self).slot_occupied(ii as int)
                        && old(self).slot_owning(CommandIndex::Command(ii))
                        && !old(self).slot_initialized(ii as int))
                &&& (forall|ii: usize| #![trigger events@.contains(RunEvent::Periodic(CommandIndex::Command(ii)))]
                    events@.contains(RunEvent::Periodic(CommandIndex::Command(ii)))
                    <==> (ii as int) < old(self).transient_count()
                        && old(self).slot_occupied(ii as int)
                        && old(self).slot_owning(CommandIndex::Command(ii)))
                &&& (forall|ii: usize| #![trigger events@.contains(RunEvent::End(CommandIndex::Command(ii), true))]
                    events@.contains(RunEvent::End(CommandIndex::Command(ii), true))
                    <==> (ii as int) < old(self).transient_count()
                        && old(self).slot_occupied(ii as int)
                        && old(self).slot_owning(CommandIndex::Command(ii))
                        && old(self).slot_interrupted(ii as int))
                &&& (forall|ii: usize| #![trigger events@.contains(RunEvent::End(CommandIndex::Command(ii), false))]
                    events@.contains(RunEvent::End(CommandIndex::Command(ii), false))
                    ==> (ii as int) < old(self).transient_count()
                        && old(self).slot_occupied(ii as int)
                        && old(self).slot_owning(CommandIndex::Command(ii)))
                &&& (forall|dd: usize| #![trigger events@.contains(RunEvent::Init(CommandIndex::DefaultCommand(dd)))]
                    events@.contains(RunEvent::Init(CommandIndex::DefaultCommand(dd)))
                    <==> (dd as int) < old(self).default_count()
                        && old(self).default_occupied(dd as int)
                        && old(self).default_owning(dd)
                        && !old(self).default_slot_initialized(dd as int))
                &&& (forall|dd: usize| #![trigger events@.contains(RunEvent::Periodic(CommandIndex::DefaultCommand(dd)))]
                    events@.contains(RunEvent::Periodic(CommandIndex::DefaultCommand(dd)))
                    <==> (dd as int) < old(self).default_count()
                        && old(self).default_occupied(dd as int)
                        && old(self).default_owning(dd))
                &&& (forall|dd: usize| #![trigger events@.contains(RunEvent::End(CommandIndex::DefaultCommand(dd), true))]
                    events@.contains(RunEvent::End(CommandIndex::DefaultCommand(dd), true))
                    <==> (dd as int) < old(self).default_count()
                        && old(self).default_occupied(dd as int)
                        && old(self).default_owning(dd)
                        && old(self).default_slot_interrupted(dd as int))
                &&& init_events_distinct(events@)
                &&& (forall|i: int| #![trigger final(self).slot_occupied(i)]
                    0 <= i < old(self).transient_count()
                    ==> final(self).slot_occupied(i)
                        == (old(self).slot_occupied(i) && !freed_in(events@, i)))
                &&& (forall|i: int| #![trigger final(self).slot_initialized(i)]
                    0 <= i < old(self).transient_count()
                    ==> final(self).slot_initialized(i)
                        == ((old(self).slot_initialized(i)
                            || (old(self).slot_occupied(i)
                                && old(self).slot_owning(CommandIndex::Command(i as usize))))
                            && !freed_in(events@, i)))
                &&& (forall|i: int| #![trigger final(self).slot_orphan(i)]
                    0 <= i < old(self).transient_count()
                    ==> final(self).slot_orphan(i)
                        == (old(self).slot_orphan(i) && !freed_in(events@, i)))
                &&& (forall|i: int| #![trigger final(self).slot_interrupted(i)]
                    0 <= i < old(self).transient_count()
                    ==> final(self).slot_interrupted(i) == old(self).slot_interrupted(i))
                &&& (forall|d: int| 0 <= d < old(self).default_count()
                    ==> final(self).default_slot_initialized(d)
                        == (old(self).default_slot_initialized(d)
                            || (old(self).default_occupied(d)
                                && old(self).default_owning(d as usize))))
                &&& (forall|s: u8| final(self).owner_of(s)
                    == old(self).owner_after_run(s, events@))
            },
    {
        let ghost s0 = *old(self);
        self.run_subsystems();
        let ghost sm = *self;
        self.run_cond_schedulers();
        let ghost sc = *self;
        let events = self.run_commands();
        proof {
            s0.lemma_owns_any_iff();
            sc.lemma_owns_any_iff();
            // A registered subsystem is owned once the tick is over.
            assert forall|s: u8| s0.default_of(s) is Some
                implies self.owner_of(s) is Some by {
                assert(sm.owner_of(s) is Some);
                assert(sc.owner_of(s) is Some);
                assert(sc.default_of(s) == s0.default_of(s));
                assert(self.owner_of(s) == sc.owner_after_tick(s, events@));
            }
            if s0.scheduler_count() == 0 {
                assert(sc == sm);
                assert(sc.transient_count() == s0.transient_count());
                assert(forall|i: int| 0 <= i < s0.transient_count() ==> {
                    &&& sc.slot_occupied(i) == s0.slot_occupied(i)
                    &&& sc.slot_initialized(i) == s0.slot_initialized(i)
                    &&& sc.slot_orphan(i) == s0.slot_orphan(i)
                    &&& sc.slot_interrupted(i) == s0.slot_interrupted(i)
                });
                assert(sc.default_count() == s0.default_count());
                assert(forall|d: int| 0 <= d < s0.default_count() ==> {
                    &&& sc.default_occupied(d) == s0.default_occupied(d)
                    &&& sc.default_slot_initialized(d) == s0.default_slot_initialized(d)
                    &&& sc.default_slot_interrupted(d) == s0.default_slot_interrupted(d)
                });
                // Mid-tick ownership is the default-fallback view of the
                // starting state.
                assert forall|s: u8| sc.owner_of(s) == s0.owner_after_defaults(s) by {}
                assert forall|ii: usize| sc.slot_owning(CommandIndex::Command(ii))
                    == s0.slot_owning(CommandIndex::Command(ii)) by {
                    if sc.owns_any(CommandIndex::Command(ii)) {
                        let s = choose|s: u8| sc.owner_of(s) == Some(CommandIndex::Command(ii));
                        assert(s0.owner_of(s) == Some(CommandIndex::Command(ii)));
                    }
                    if s0.owns_any(CommandIndex::Command(ii)) {
                        let s = choose|s: u8| s0.owner_of(s) == Some(CommandIndex::Command(ii));
                        assert(sc.owner_of(s) == Some(CommandIndex::Command(ii)));
                    }
                }
                assert forall|dd: usize| sc.slot_owning(CommandIndex::DefaultCommand(dd))
                    == s0.default_owning(dd) by {
                    if sc.owns_any(CommandIndex::DefaultCommand(dd)) {
                        let s = choose|s: u8| sc.owner_of(s)
                            == Some(CommandIndex::DefaultCommand(dd));
                        assert(s0.owner_after_defaults(s)
                            == Some(CommandIndex::DefaultCommand(dd)));
                    }
                    if s0.default_owning(dd) {
                        let s = choose|s: u8| s0.owner_after_defaults(s)
                            == Some(CommandIndex::DefaultCommand(dd));
                        assert(sc.owner_of(s) == Some(CommandIndex::DefaultCommand(dd)));
                    }
                }
                assert forall|i: int| 0 <= i < s0.transient_count() implies {
                    &&& self.slot_occupied(i)
                        == (s0.slot_occupied(i) && !freed_in(events@, i))
                    &&& self.slot_initialized(i)
                        == ((s0.slot_initialized(i)
                            || (s0.slot_occupied(i)
                                && s0.slot_owning(CommandIndex::Command(i as usize))))
                            && !freed_in(events@, i))
                    &&& self.slot_orphan(i)
                        == (s0.slot_orphan(i) && !freed_in(events@, i))
                    &&& self.slot_interrupted(i) == s0.slot_interrupted(i)
                } by {
                    assert(sc.slot_occupied(i) == s0.slot_occupied(i));
                    assert(sc.slot_initialized(i) == s0.slot_initialized(i));
                    assert(sc.slot_orphan(i) == s0.slot_orphan(i));
                    assert(sc.slot_interrupted(i) == s0.slot_interrupted(i));
                    assert(sc.slot_owning(CommandIndex::Command(i as usize))
                        == s0.slot_owning(CommandIndex::Command(i as usize)));
                    assert(self.slot_occupied(i)
                        == (sc.slot_occupied(i) && !freed_in(events@, i)));
                    assert(self.slot_initialized(i)
                        == ((sc.slot_initialized(i)
                            || (sc.slot_occupied(i)
                                && sc.slot_owning(CommandIndex::Command(i as usize))))
                            && !freed_in(events@, i)));
                    assert(self.slot_orphan(i)
                        == (sc.slot_orphan(i) && !freed_in(events@, i)));
                    assert(self.slot_interrupted(i) == sc.slot_interrupted(i));
                }
                assert forall|s: u8| self.owner_of(s) == s0.owner_after_run(s, events@) by {
                    assert(self.owner_of(s) == sc.owner_after_tick(s, events@));
                    assert(sc.owner_of(s) == s0.owner_after_defaults(s));
                    assert(sc.default_of(s) == s0.default_of(s));
                }
            }
        }
        events
    }
}

/// Orphan independence: an orphaned slot takes part in every tick's
/// command pass, whatever the ownership table holds — together with the
/// `Periodic` clause of `run`, an occupied orphan is advanced every tick.
pub proof fn lemma_orphan_always_runs(m: &CommandManager, i: usize)
    requires
        m.slot_orphan(i as int),
    ensures
        m.slot_owning(CommandIndex::Command(i)),
{
}

/// Mutual exclusion over subsystem ownership: two distinct entries of the
/// ownership table never claim the same subsystem, so at any instant each
/// subsystem has at most one owning slot.
pub proof fn lemma_mutual_exclusion(m: &CommandManager, j1: int, j2: int)
    requires
        m.wf(),
        0 <= j1 < m.owners_table().len(),
        0 <= j2 < m.owners_table().len(),
        j1 != j2,
    ensures
        m.owners_table()[j1].0 != m.owners_table()[j2].0,
{
}

} // verus!
