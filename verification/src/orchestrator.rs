//! The queue and sequencer around the single record-store handle.
//!
//! The orchestrator owns the handle while it is idle, an unordered pool
//! of concurrent downloads, and FIFO queues of pending installs and
//! uninstalls. Every time the handle comes back it decides what runs
//! next: the front uninstall first, else the front install, else a
//! deferred refresh, else it parks the handle. At most one install or
//! uninstall ever runs at a time, because running one requires the
//! handle.

use vstd::prelude::*;

use std::collections::VecDeque;

use crate::mod_manager::ModManager;
use crate::records::Records;
use crate::registry::{Mod, Registry};
use crate::tasks::{
    Download, DownloadState, DownloadUpdate, Install, InstallState, Uninstall, UninstallState,
    init_progress,
};

verus! {

/// The set of ids a list of distinct strings stands for.
pub open spec fn str_set(v: Seq<String>) -> Set<Seq<char>> {
    Set::new(|x: Seq<char>| exists|i: int| 0 <= i < v.len() && (#[trigger] v[i])@ == x)
}

/// Pairwise-distinct strings.
pub open spec fn str_dup_free(v: Seq<String>) -> bool {
    forall|i: int, j: int| 0 <= i < j < v.len() ==> (#[trigger] v[i])@ != (#[trigger] v[j])@
}

/// Whether `v` holds `s`.
fn str_vec_contains(v: &Vec<String>, s: &str) -> (r: bool)
    ensures
        r == str_set(v@).contains(s@),
{
    let mut i: usize = 0;
    let n: usize = v.len();
    while i < n
        invariant
            i <= n,
            n == v@.len(),
            forall|j: int| 0 <= j < i ==> (#[trigger] v@[j])@ != s@,
        decreases n - i,
    {
        if crate::text::str_eq(v[i].as_str(), s) {
            return true;
        }
        i = i + 1;
    }
    false
}

/// Adds `s` to the set.
fn str_vec_insert(v: &mut Vec<String>, s: String)
    requires
        str_dup_free(old(v)@),
    ensures
        str_dup_free(final(v)@),
        str_set(final(v)@) =~= str_set(old(v)@).insert(s@),
{
    if !str_vec_contains(v, s.as_str()) {
        v.push(s);
        proof {
            let w = v@;
            let o = old(v)@;
            assert(forall|j: int| 0 <= j < o.len() ==> w[j] == o[j]);
            assert(w[w.len() - 1] == s);
            assert forall|x: Seq<char>| str_set(w).contains(x)
                implies str_set(o).insert(s@).contains(x) by {
                let i = choose|i: int| 0 <= i < w.len() && (#[trigger] w[i])@ == x;
                if i < o.len() {
                    assert(str_set(o).contains(x));
                }
            }
        }
    } else {
        proof {
            let i = choose|i: int| 0 <= i < v@.len() && (#[trigger] v@[i])@ == s@;
            assert(str_set(v@).contains(s@));
        }
    }
}

/// Removes `s` from the set; does nothing when it is absent.
fn str_vec_remove(v: &mut Vec<String>, s: &str)
    requires
        str_dup_free(old(v)@),
    ensures
        str_dup_free(final(v)@),
        str_set(final(v)@) =~= str_set(old(v)@).remove(s@),
{
    let mut i: usize = 0;
    let n: usize = v.len();
    while i < n
        invariant
            i <= n,
            n == v@.len(),
            v@ == old(v)@,
            str_dup_free(v@),
            forall|j: int| 0 <= j < i ==> (#[trigger] v@[j])@ != s@,
        decreases n - i,
    {
        if crate::text::str_eq(v[i].as_str(), s) {
            let ghost o = v@;
            v.remove(i);
            proof {
                let w = v@;
                let ii = i as int;
                assert(o[ii]@ == s@);
                assert(w.len() == o.len() - 1);
                assert(forall|j: int| 0 <= j < ii ==> w[j] == o[j]);
                assert(forall|j: int| ii <= j < w.len() ==> w[j] == o[j + 1]);
                assert forall|a: int, b: int| 0 <= a < b < w.len()
                    implies (#[trigger] w[a])@ != (#[trigger] w[b])@ by {
                    if b < ii {
                        assert(w[a] == o[a] && w[b] == o[b]);
                        assert(o[a]@ != o[b]@);
                    } else if a < ii {
                        assert(w[a] == o[a] && w[b] == o[b + 1]);
                        assert(o[a]@ != o[b + 1]@);
                    } else {
                        assert(w[a] == o[a + 1] && w[b] == o[b + 1]);
                        assert(o[a + 1]@ != o[b + 1]@);
                    }
                }
                assert forall|x: Seq<char>| str_set(w).contains(x)
                    implies str_set(o).remove(s@).contains(x) by {
                    let a = choose|a: int| 0 <= a < w.len() && (#[trigger] w[a])@ == x;
                    if a < ii {
                        assert(o[a]@ == x);
                        assert(x != s@) by {
                            assert(o[a]@ != o[ii]@);
                        }
                    } else {
                        assert(o[a + 1]@ == x);
                        assert(x != s@) by {
                            assert(o[ii]@ != o[a + 1]@);
                        }
                    }
                    assert(str_set(o).contains(x));
                }
                assert forall|x: Seq<char>| str_set(o).remove(s@).contains(x)
                    implies str_set(w).contains(x) by {
                    let a = choose|a: int| 0 <= a < o.len() && (#[trigger] o[a])@ == x;
                    if a < ii {
                        assert(w[a]@ == x);
                    } else if a == ii {
                        assert(x == s@);
                    } else {
                        assert(w[a - 1] == o[a]);
                        assert(w[a - 1]@ == x);
                    }
                }
            }
            return ;
        }
        i = i + 1;
    }
    proof {
        if str_set(v@).contains(s@) {
            let i = choose|i: int| 0 <= i < v@.len() && (#[trigger] v@[i])@ == s@;
        }
        assert(str_set(v@) =~= str_set(old(v)@).remove(s@));
    }
}

/// How many of the queued installs are running.
pub open spec fn installs_running(q: Seq<Install>) -> nat
    decreases q.len(),
{
    if q.len() == 0 {
        0
    } else {
        (if q[0].state matches InstallState::Running { .. } {
            1nat
        } else {
            0
        }) + installs_running(q.drop_first())
    }
}

/// How many of the queued uninstalls are running.
pub open spec fn uninstalls_running(q: Seq<Uninstall>) -> nat
    decreases q.len(),
{
    if q.len() == 0 {
        0
    } else {
        (if q[0].state matches UninstallState::Running { .. } {
            1nat
        } else {
            0
        }) + uninstalls_running(q.drop_first())
    }
}

/// The ids a stack of registries offers, every registry counted.
pub open spec fn effective_mods(regs: Seq<Registry>) -> Set<Seq<char>>
    decreases regs.len(),
{
    if regs.len() == 0 {
        Set::empty()
    } else {
        regs[0]@.dom() + effective_mods(regs.drop_first())
    }
}

/// The position of the front-most registry that lists `id`, or `-1`.
pub open spec fn first_holder(regs: Seq<Registry>, id: Seq<char>) -> int
    decreases regs.len(),
{
    if regs.len() == 0 {
        -1
    } else if regs[0]@.contains_key(id) {
        0
    } else if first_holder(regs.drop_first(), id) < 0 {
        -1
    } else {
        first_holder(regs.drop_first(), id) + 1
    }
}

/// The orchestrator: the idle handle, the download pool, the two pending
/// queues, the user's selections, and the cached manifest and registry
/// state.
#[derive(Debug)]
pub struct Orchestrator {
    pub mod_manager: Option<ModManager>,
    pub downloads: Vec<Download>,
    pub installs: VecDeque<Install>,
    pub uninstalls: VecDeque<Uninstall>,
    pub current_mods: Vec<String>,
    pub install_mods: Vec<String>,
    pub uninstall_mods: Vec<String>,
    pub registries: VecDeque<Registry>,
    pub records: Records,
    pub loading_registry: bool,
    pub need_current_mods_update: bool,
    pub need_records_update: bool,
}

/// The fields the selection-set operations never touch.
pub open spec fn same_core(a: &Orchestrator, b: &Orchestrator) -> bool {
    &&& a.mod_manager == b.mod_manager
    &&& a.downloads == b.downloads
    &&& a.installs == b.installs
    &&& a.uninstalls == b.uninstalls
    &&& a.registries == b.registries
    &&& a.records == b.records
    &&& a.loading_registry == b.loading_registry
    &&& a.need_current_mods_update == b.need_current_mods_update
    &&& a.need_records_update == b.need_records_update
}

impl Orchestrator {
    /// The single-holder discipline and the shape of the caches: the
    /// handle is idle or exactly one install/uninstall runs, never both
    /// and never two; the selection sets hold no duplicates; the manifest
    /// cache and every loaded registry are well-formed.
    pub open spec fn wf(&self) -> bool {
        &&& installs_running(self.installs@) + uninstalls_running(self.uninstalls@) <= 1
        &&& self.mod_manager is Some ==> installs_running(self.installs@) + uninstalls_running(
            self.uninstalls@,
        ) == 0
        &&& str_dup_free(self.current_mods@)
        &&& str_dup_free(self.install_mods@)
        &&& str_dup_free(self.uninstall_mods@)
        &&& self.records.wf()
        &&& forall|i: int| 0 <= i < self.registries@.len() ==> (#[trigger] self.registries@[i]).wf()
    }

    /// A fresh orchestrator: no handle yet, nothing queued, nothing
    /// selected, nothing loaded.
    pub fn new() -> (r: Orchestrator)
        ensures
            r.wf(),
            r.mod_manager is None,
            r.downloads@.len() == 0,
            r.installs@.len() == 0,
            r.uninstalls@.len() == 0,
            str_set(r.current_mods@) =~= Set::<Seq<char>>::empty(),
            str_set(r.install_mods@) =~= Set::<Seq<char>>::empty(),
            str_set(r.uninstall_mods@) =~= Set::<Seq<char>>::empty(),
            r.registries@.len() == 0,
            r.records@ =~= Map::<Seq<char>, crate::records::RecordV>::empty(),
            !r.loading_registry && !r.need_current_mods_update && !r.need_records_update,
    {
        Orchestrator {
            mod_manager: None,
            downloads: Vec::new(),
            installs: VecDeque::new(),
            uninstalls: VecDeque::new(),
            current_mods: Vec::new(),
            install_mods: Vec::new(),
            uninstall_mods: Vec::new(),
            registries: VecDeque::new(),
            records: Records::new(),
            loading_registry: false,
            need_current_mods_update: false,
            need_records_update: false,
        }
    }

    /// Marks `id` for install; a mod cannot be marked for install and
    /// uninstall at once.
    pub fn add_install_mod(&mut self, id: String)
        requires
            old(self).wf(),
        ensures
            final(self).wf(),
            str_set(final(self).install_mods@) =~= str_set(old(self).install_mods@).insert(id@),
            str_set(final(self).uninstall_mods@) =~= str_set(old(self).uninstall_mods@).remove(
                id@,
            ),
            same_core(old(self), final(self)),
            final(self).current_mods == old(self).current_mods,
    {
        str_vec_remove(&mut self.uninstall_mods, id.as_str());
        str_vec_insert(&mut self.install_mods, id);
    }

    /// Marks `id` for uninstall; a mod cannot be marked for install and
    /// uninstall at once.
    pub fn add_uninstall_mod(&mut self, id: String)
        requires
            old(self).wf(),
        ensures
            final(self).wf(),
            str_set(final(self).uninstall_mods@) =~= str_set(old(self).uninstall_mods@).insert(
                id@,
            ),
            str_set(final(self).install_mods@) =~= str_set(old(self).install_mods@).remove(id@),
            same_core(old(self), final(self)),
            final(self).current_mods == old(self).current_mods,
    {
        str_vec_remove(&mut self.install_mods, id.as_str());
        str_vec_insert(&mut self.uninstall_mods, id);
    }

    /// Unmarks `id` for install.
    pub fn remove_install_mod(&mut self, id: &str)
        requires
            old(self).wf(),
        ensures
            final(self).wf(),
            str_set(final(self).install_mods@) =~= str_set(old(self).install_mods@).remove(id@),
            same_core(old(self), final(self)),
            final(self).current_mods == old(self).current_mods,
            final(self).uninstall_mods == old(self).uninstall_mods,
    {
        str_vec_remove(&mut self.install_mods, id);
    }

    /// Unmarks `id` for uninstall.
    pub fn remove_uninstall_mod(&mut self, id: &str)
        requires
            old(self).wf(),
        ensures
            final(self).wf(),
            str_set(final(self).uninstall_mods@) =~= str_set(old(self).uninstall_mods@).remove(
                id@,
            ),
            same_core(old(self), final(self)),
            final(self).current_mods == old(self).current_mods,
            final(self).install_mods == old(self).install_mods,
    {
        str_vec_remove(&mut self.uninstall_mods, id);
    }

    /// Notes that `id` is installed now.
    pub fn add_current_mod(&mut self, id: String)
        requires
            old(self).wf(),
        ensures
            final(self).wf(),
            str_set(final(self).current_mods@) =~= str_set(old(self).current_mods@).insert(id@),
            same_core(old(self), final(self)),
            final(self).install_mods == old(self).install_mods,
            final(self).uninstall_mods == old(self).uninstall_mods,
    {
        str_vec_insert(&mut self.current_mods, id);
    }

    /// Notes that `id` is gone now.
    pub fn remove_current_mod(&mut self, id: &str)
        requires
            old(self).wf(),
        ensures
            final(self).wf(),
            str_set(final(self).current_mods@) =~= str_set(old(self).current_mods@).remove(id@),
            same_core(old(self), final(self)),
            final(self).install_mods == old(self).install_mods,
            final(self).uninstall_mods == old(self).uninstall_mods,
    {
        str_vec_remove(&mut self.current_mods, id);
    }

    /// Begins a registry load batch: the old registries are dropped
    /// wholesale — loading replaces, it never merges.
    pub fn begin_load_registries(&mut self)
        requires
            old(self).wf(),
        ensures
            final(self).wf(),
            final(self).registries@.len() == 0,
            effective_mods(final(self).registries@) =~= Set::<Seq<char>>::empty(),
            final(self).loading_registry,
            final(self).mod_manager == old(self).mod_manager,
            final(self).downloads == old(self).downloads,
            final(self).installs == old(self).installs,
            final(self).uninstalls == old(self).uninstalls,
            final(self).current_mods == old(self).current_mods,
            final(self).install_mods == old(self).install_mods,
            final(self).uninstall_mods == old(self).uninstall_mods,
            final(self).records == old(self).records,
            final(self).need_current_mods_update == old(self).need_current_mods_update,
            final(self).need_records_update == old(self).need_records_update,
    {
        self.registries.clear();
        self.loading_registry = true;
    }

    /// Takes one freshly loaded registry in, in front of those already
    /// loaded in this batch.
    pub fn registry_loaded(&mut self, registry: Registry)
        requires
            old(self).wf(),
            registry.wf(),
        ensures
            final(self).wf(),
            final(self).registries@ == seq![registry] + old(self).registries@,
            effective_mods(final(self).registries@) =~= registry@.dom() + effective_mods(
                old(self).registries@,
            ),
            !final(self).loading_registry,
            final(self).mod_manager == old(self).mod_manager,
            final(self).downloads == old(self).downloads,
            final(self).installs == old(self).installs,
            final(self).uninstalls == old(self).uninstalls,
            final(self).current_mods == old(self).current_mods,
            final(self).install_mods == old(self).install_mods,
            final(self).uninstall_mods == old(self).uninstall_mods,
            final(self).records == old(self).records,
            final(self).need_current_mods_update == old(self).need_current_mods_update,
            final(self).need_records_update == old(self).need_records_update,
    {
        self.registries.push_front(registry);
        self.loading_registry = false;
        proof {
            let w = self.registries@;
            assert(w.drop_first() =~= old(self).registries@);
            assert(forall|i: int| 1 <= i < w.len() ==> w[i] == old(self).registries@[i - 1]);
        }
    }
}

/// Loading replaces: whatever stood in the registry stack before, after a
/// fresh batch loads one registry the effective mod set is exactly that
/// registry's ids — never a merge with an earlier registry.
pub proof fn lemma_registry_replace(r2: Registry)
    ensures
        effective_mods(seq![r2] + Seq::<Registry>::empty()) =~= r2@.dom(),
{
    let s = seq![r2] + Seq::<Registry>::empty();
    assert(s.len() == 1);
    assert(s[0] == r2);
    assert(s.drop_first() =~= Seq::<Registry>::empty());
    assert(effective_mods(Seq::<Registry>::empty()) =~= Set::<Seq<char>>::empty());
}

/// At any instant at most one install or uninstall runs, and none at all
/// while the orchestrator holds the handle.
pub proof fn lemma_single_runner(o: &Orchestrator)
    requires
        o.wf(),
    ensures
        installs_running(o.installs@) + uninstalls_running(o.uninstalls@) <= 1,
        o.mod_manager is Some ==> installs_running(o.installs@) + uninstalls_running(o.uninstalls@)
            == 0,
{
}

/// Whether one queued install runs.
pub open spec fn install_flag(t: Install) -> nat {
    if t.state matches InstallState::Running { .. } {
        1
    } else {
        0
    }
}

/// Whether one queued uninstall runs.
pub open spec fn uninstall_flag(t: Uninstall) -> nat {
    if t.state matches UninstallState::Running { .. } {
        1
    } else {
        0
    }
}

/// How replacing one queued install changes the running count.
pub proof fn lemma_installs_running_update(q: Seq<Install>, k: int, t: Install)
    requires
        0 <= k < q.len(),
    ensures
        installs_running(q.update(k, t)) == installs_running(q) - install_flag(q[k]) + install_flag(
            t,
        ),
    decreases q.len(),
{
    if k == 0 {
        assert(q.update(0, t).drop_first() =~= q.drop_first());
    } else {
        assert(q.update(k, t).drop_first() =~= q.drop_first().update(k - 1, t));
        lemma_installs_running_update(q.drop_first(), k - 1, t);
    }
}

/// How removing one queued install changes the running count.
pub proof fn lemma_installs_running_remove(q: Seq<Install>, k: int)
    requires
        0 <= k < q.len(),
    ensures
        installs_running(q.remove(k)) == installs_running(q) - install_flag(q[k]),
    decreases q.len(),
{
    if k == 0 {
        assert(q.remove(0) =~= q.drop_first());
    } else {
        assert(q.remove(k).drop_first() =~= q.drop_first().remove(k - 1));
        assert(q.remove(k)[0] == q[0]);
        lemma_installs_running_remove(q.drop_first(), k - 1);
    }
}

/// How appending one queued install changes the running count.
pub proof fn lemma_installs_running_push(q: Seq<Install>, t: Install)
    ensures
        installs_running(q.push(t)) == installs_running(q) + install_flag(t),
    decreases q.len(),
{
    if q.len() == 0 {
        assert(q.push(t)[0] == t);
        assert(q.push(t).drop_first() =~= Seq::<Install>::empty());
        assert(installs_running(Seq::<Install>::empty()) == 0);
    } else {
        assert(q.push(t).drop_first() =~= q.drop_first().push(t));
        assert(q.push(t)[0] == q[0]);
        lemma_installs_running_push(q.drop_first(), t);
    }
}

/// How replacing one queued uninstall changes the running count.
pub proof fn lemma_uninstalls_running_update(q: Seq<Uninstall>, k: int, t: Uninstall)
    requires
        0 <= k < q.len(),
    ensures
        uninstalls_running(q.update(k, t)) == uninstalls_running(q) - uninstall_flag(q[k])
            + uninstall_flag(t),
    decreases q.len(),
{
    if k == 0 {
        assert(q.update(0, t).drop_first() =~= q.drop_first());
    } else {
        assert(q.update(k, t).drop_first() =~= q.drop_first().update(k - 1, t));
        lemma_uninstalls_running_update(q.drop_first(), k - 1, t);
    }
}

/// How removing one queued uninstall changes the running count.
pub proof fn lemma_uninstalls_running_remove(q: Seq<Uninstall>, k: int)
    requires
        0 <= k < q.len(),
    ensures
        uninstalls_running(q.remove(k)) == uninstalls_running(q) - uninstall_flag(q[k]),
    decreases q.len(),
{
    if k == 0 {
        assert(q.remove(0) =~= q.drop_first());
    } else {
        assert(q.remove(k).drop_first() =~= q.drop_first().remove(k - 1));
        assert(q.remove(k)[0] == q[0]);
        lemma_uninstalls_running_remove(q.drop_first(), k - 1);
    }
}

/// How appending one queued uninstall changes the running count.
pub proof fn lemma_uninstalls_running_push(q: Seq<Uninstall>, t: Uninstall)
    ensures
        uninstalls_running(q.push(t)) == uninstalls_running(q) + uninstall_flag(t),
    decreases q.len(),
{
    if q.len() == 0 {
        assert(q.push(t)[0] == t);
        assert(q.push(t).drop_first() =~= Seq::<Uninstall>::empty());
        assert(uninstalls_running(Seq::<Uninstall>::empty()) == 0);
    } else {
        assert(q.push(t).drop_first() =~= q.drop_first().push(t));
        assert(q.push(t)[0] == q[0]);
        lemma_uninstalls_running_push(q.drop_first(), t);
    }
}

/// The uninstall queue with every spent task in front of the first ready
/// one discarded — what the scheduler's scan leaves.
pub open spec fn drop_nonready_uninstalls(q: Seq<Uninstall>) -> Seq<Uninstall>
    decreases q.len(),
{
    if q.len() > 0 && !(q[0].state is Ready) {
        drop_nonready_uninstalls(q.drop_first())
    } else {
        q
    }
}

/// The install queue with every spent task in front of the first ready
/// one discarded.
pub open spec fn drop_nonready_installs(q: Seq<Install>) -> Seq<Install>
    decreases q.len(),
{
    if q.len() > 0 && !(q[0].state is Ready) {
        drop_nonready_installs(q.drop_first())
    } else {
        q
    }
}

/// A task the moment it starts.
pub open spec fn started_uninstall(t: Uninstall) -> Uninstall {
    Uninstall { id: t.id, state: UninstallState::Running { progress: init_progress() } }
}

/// A task the moment it starts.
pub open spec fn started_install(t: Install) -> Install {
    Install {
        id: t.id,
        path: t.path,
        version: t.version,
        ty: t.ty,
        state: InstallState::Running { progress: init_progress() },
    }
}

/// What the orchestrator asks its caller to do next. A directive that
/// runs or refreshes carries the handle out; it comes back with the
/// operation's result.
#[derive(Debug)]
pub enum Directive {
    /// Run the uninstall of `id` with the handle.
    RunUninstall { manager: ModManager, id: String },
    /// Extract the archive at `path` as mod `id` with the handle.
    RunInstall { manager: ModManager, id: String, path: String, version: String, ty: String },
    /// Re-read the manifest keys with the handle.
    RefreshCurrentMods { manager: ModManager },
    /// Re-read the manifest with the handle.
    RefreshRecords { manager: ModManager },
    /// Nothing to do: the handle is parked inside the orchestrator.
    Parked,
}

impl Orchestrator {
    /// The scheduling decision, taken every time the handle comes free:
    /// discard spent tasks at the queue fronts, start the first pending
    /// uninstall, else the first pending install, else serve a deferred
    /// refresh, else park the handle.
    pub fn handle_ready(&mut self, m: ModManager) -> (d: Directive)
        requires
            old(self).wf(),
            old(self).mod_manager is None,
            installs_running(old(self).installs@) + uninstalls_running(old(self).uninstalls@)
                == 0,
        ensures
            final(self).wf(),
            final(self).downloads == old(self).downloads,
            final(self).current_mods == old(self).current_mods,
            final(self).install_mods == old(self).install_mods,
            final(self).uninstall_mods == old(self).uninstall_mods,
            final(self).registries == old(self).registries,
            final(self).records == old(self).records,
            final(self).loading_registry == old(self).loading_registry,
            drop_nonready_uninstalls(old(self).uninstalls@).len() > 0 ==> {
                &&& final(self).uninstalls@ == drop_nonready_uninstalls(
                    old(self).uninstalls@,
                ).update(0, started_uninstall(drop_nonready_uninstalls(old(self).uninstalls@)[0]))
                &&& final(self).installs == old(self).installs
                &&& final(self).mod_manager is None
                &&& final(self).need_current_mods_update == old(self).need_current_mods_update
                &&& final(self).need_records_update == old(self).need_records_update
                &&& (d matches Directive::RunUninstall { manager, id } && manager == m && id
                    == drop_nonready_uninstalls(old(self).uninstalls@)[0].id)
            },
            drop_nonready_uninstalls(old(self).uninstalls@).len() == 0 && drop_nonready_installs(
                old(self).installs@,
            ).len() > 0 ==> {
                &&& final(self).uninstalls@.len() == 0
                &&& final(self).installs@ == drop_nonready_installs(old(self).installs@).update(
                    0,
                    started_install(drop_nonready_installs(old(self).installs@)[0]),
                )
                &&& final(self).mod_manager is None
                &&& final(self).need_current_mods_update == old(self).need_current_mods_update
                &&& final(self).need_records_update == old(self).need_records_update
                &&& (d matches Directive::RunInstall { manager, id, path, version, ty } && manager
                    == m && id == drop_nonready_installs(old(self).installs@)[0].id && path
                    == drop_nonready_installs(old(self).installs@)[0].path && version
                    == drop_nonready_installs(old(self).installs@)[0].version && ty
                    == drop_nonready_installs(old(self).installs@)[0].ty)
            },
            drop_nonready_uninstalls(old(self).uninstalls@).len() == 0 && drop_nonready_installs(
                old(self).installs@,
            ).len() == 0 ==> {
                &&& final(self).uninstalls@.len() == 0
                &&& final(self).installs@.len() == 0
                &&& (if old(self).need_current_mods_update {
                    &&& final(self).mod_manager is None
                    &&& !final(self).need_current_mods_update
                    &&& final(self).need_records_update == old(self).need_records_update
                    &&& (d matches Directive::RefreshCurrentMods { manager } && manager == m)
                } else if old(self).need_records_update {
                    &&& final(self).mod_manager is None
                    &&& final(self).need_current_mods_update == old(
                        self,
                    ).need_current_mods_update
                    &&& !final(self).need_records_update
                    &&& (d matches Directive::RefreshRecords { manager } && manager == m)
                } else {
                    &&& final(self).mod_manager == Some(m)
                    &&& final(self).need_current_mods_update == old(
                        self,
                    ).need_current_mods_update
                    &&& final(self).need_records_update == old(self).need_records_update
                    &&& d is Parked
                })
            },
    {
        loop
            invariant
                self.wf(),
                uninstalls_running(self.uninstalls@) == 0,
                installs_running(self.installs@) == 0,
                self.mod_manager is None,
                drop_nonready_uninstalls(self.uninstalls@) == drop_nonready_uninstalls(
                    old(self).uninstalls@,
                ),
                self.downloads == old(self).downloads,
                self.installs == old(self).installs,
                self.current_mods == old(self).current_mods,
                self.install_mods == old(self).install_mods,
                self.uninstall_mods == old(self).uninstall_mods,
                self.registries == old(self).registries,
                self.records == old(self).records,
                self.loading_registry == old(self).loading_registry,
                self.need_current_mods_update == old(self).need_current_mods_update,
                self.need_records_update == old(self).need_records_update,
            ensures
                self.uninstalls@.len() == 0,
                drop_nonready_uninstalls(old(self).uninstalls@).len() == 0,
            decreases self.uninstalls@.len(),
        {
            let ghost q = self.uninstalls@;
            match self.uninstalls.pop_front() {
                None => {
                    break ;
                },
                Some(mut t) => {
                    match t.state {
                        UninstallState::Ready => {
                            let id_out: String = t.id.clone();
                            t.start();
                            proof {
                                assert(uninstalls_running(q.drop_first()) == 0);
                            }
                            self.uninstalls.push_front(t);
                            proof {
                                let du = drop_nonready_uninstalls(q);
                                assert(du == q);
                                assert(self.uninstalls@ =~= q.update(
                                    0,
                                    started_uninstall(q[0]),
                                ));
                                lemma_uninstalls_running_update(q, 0, started_uninstall(q[0]));
                            }
                            return Directive::RunUninstall { manager: m, id: id_out };
                        },
                        _ => {
                            proof {
                                assert(drop_nonready_uninstalls(q) == drop_nonready_uninstalls(
                                    q.drop_first(),
                                ));
                            }
                        },
                    }
                },
            }
        }
        loop
            invariant
                self.wf(),
                uninstalls_running(self.uninstalls@) == 0,
                installs_running(self.installs@) == 0,
                self.uninstalls@.len() == 0,
                drop_nonready_uninstalls(old(self).uninstalls@).len() == 0,
                self.mod_manager is None,
                drop_nonready_installs(self.installs@) == drop_nonready_installs(
                    old(self).installs@,
                ),
                self.downloads == old(self).downloads,
                self.current_mods == old(self).current_mods,
                self.install_mods == old(self).install_mods,
                self.uninstall_mods == old(self).uninstall_mods,
                self.registries == old(self).registries,
                self.records == old(self).records,
                self.loading_registry == old(self).loading_registry,
                self.need_current_mods_update == old(self).need_current_mods_update,
                self.need_records_update == old(self).need_records_update,
            ensures
                self.installs@.len() == 0,
                drop_nonready_installs(old(self).installs@).len() == 0,
            decreases self.installs@.len(),
        {
            let ghost q = self.installs@;
            match self.installs.pop_front() {
                None => {
                    break ;
                },
                Some(mut t) => {
                    match t.state {
                        InstallState::Ready => {
                            let id_out: String = t.id.clone();
                            let path_out: String = t.path.clone();
                            let version_out: String = t.version.clone();
                            let ty_out: String = t.ty.clone();
                            t.start();
                            proof {
                                assert(installs_running(q.drop_first()) == 0);
                            }
                            self.installs.push_front(t);
                            proof {
                                let di = drop_nonready_installs(q);
                                assert(di == q);
                                assert(self.installs@ =~= q.update(0, started_install(q[0])));
                                lemma_installs_running_update(q, 0, started_install(q[0]));
                            }
                            return Directive::RunInstall {
                                manager: m,
                                id: id_out,
                                path: path_out,
                                version: version_out,
                                ty: ty_out,
                            };
                        },
                        _ => {
                            proof {
                                assert(drop_nonready_installs(q) == drop_nonready_installs(
                                    q.drop_first(),
                                ));
                            }
                        },
                    }
                },
            }
        }
        if self.need_current_mods_update {
            self.need_current_mods_update = false;
            Directive::RefreshCurrentMods { manager: m }
        } else if self.need_records_update {
            self.need_records_update = false;
            Directive::RefreshRecords { manager: m }
        } else {
            self.mod_manager = Some(m);
            Directive::Parked
        }
    }

    /// Whether some install or uninstall runs right now: while one does,
    /// the handle is out and must not be handed around.
    pub fn runner_active(&self) -> (r: bool)
        ensures
            r == (installs_running(self.installs@) + uninstalls_running(self.uninstalls@) > 0),
    {
        proof {
            assert(self.installs@.skip(0) =~= self.installs@);
            assert(self.uninstalls@.skip(0) =~= self.uninstalls@);
        }
        let mut acc: usize = 0;
        let mut i: usize = 0;
        let n: usize = self.installs.len();
        while i < n
            invariant
                i <= n,
                n == self.installs@.len(),
                acc <= i,
                installs_running(self.installs@) == acc + installs_running(
                    self.installs@.skip(i as int),
                ),
            decreases n - i,
        {
            proof {
                assert(self.installs@.skip(i as int).drop_first() =~= self.installs@.skip(
                    i + 1 as int,
                ));
                assert(self.installs@.skip(i as int)[0] == self.installs@[i as int]);
            }
            match self.installs[i].state {
                InstallState::Running { .. } => {
                    acc = acc + 1;
                },
                _ => {},
            }
            i = i + 1;
        }
        proof {
            assert(self.installs@.skip(n as int) =~= Seq::<Install>::empty());
            assert(installs_running(Seq::<Install>::empty()) == 0);
        }
        proof {
            assert(self.uninstalls@.skip(0) =~= self.uninstalls@);
        }
        let mut acc2: usize = 0;
        let mut j: usize = 0;
        let n2: usize = self.uninstalls.len();
        while j < n2
            invariant
                j <= n2,
                n2 == self.uninstalls@.len(),
                acc2 <= j,
                uninstalls_running(self.uninstalls@) == acc2 + uninstalls_running(
                    self.uninstalls@.skip(j as int),
                ),
            decreases n2 - j,
        {
            proof {
                assert(self.uninstalls@.skip(j as int).drop_first() =~= self.uninstalls@.skip(
                    j + 1 as int,
                ));
                assert(self.uninstalls@.skip(j as int)[0] == self.uninstalls@[j as int]);
            }
            match self.uninstalls[j].state {
                UninstallState::Running { .. } => {
                    acc2 = acc2 + 1;
                },
                _ => {},
            }
            j = j + 1;
        }
        proof {
            assert(self.uninstalls@.skip(n2 as int) =~= Seq::<Uninstall>::empty());
            assert(uninstalls_running(Seq::<Uninstall>::empty()) == 0);
        }
        acc > 0 || acc2 > 0
    }

    /// The listing the front-most registry that lists `id` gives it;
    /// front-most because freshly loaded registries stand in front.
    pub fn request_mod(&self, id: &str) -> (r: Option<&Mod>)
        requires
            self.wf(),
        ensures
            r is Some <==> first_holder(self.registries@, id@) >= 0,
            r matches Some(m) ==> m@ == self.registries@[first_holder(self.registries@, id@)]@.index(id@),
    {
        let mut i: usize = 0;
        let n: usize = self.registries.len();
        while i < n
            invariant
                self.wf(),
                i <= n,
                n == self.registries@.len(),
                forall|j: int| 0 <= j < i ==> !(#[trigger] self.registries@[j])@.contains_key(
                    id@,
                ),
            decreases n - i,
        {
            proof {
                assert(self.registries@[i as int].wf());
            }
            match self.registries[i].get(id) {
                Some(m) => {
                    proof {
                        lemma_first_holder_found(self.registries@, id@, i as int);
                    }
                    return Some(m);
                },
                None => {},
            }
            i = i + 1;
        }
        proof {
            lemma_first_holder_absent(self.registries@, id@);
        }
        None
    }

    /// Starts fetching the archive of `id` from `url`: a fresh download
    /// joins the pool, already running. Downloads are unordered and
    /// unbounded; they never touch the handle.
    pub fn start_download(&mut self, id: String, url: String)
        requires
            old(self).wf(),
        ensures
            final(self).wf(),
            final(self).downloads@.len() == old(self).downloads@.len() + 1,
            final(self).downloads@.last().id@ == id@,
            final(self).downloads@.last().url@ == url@,
            final(self).downloads@.last().state == (DownloadState::Running {
                progress: init_progress(),
            }),
            final(self).downloads@.drop_last() == old(self).downloads@,
            final(self).installs == old(self).installs,
            final(self).uninstalls == old(self).uninstalls,
            final(self).mod_manager == old(self).mod_manager,
            final(self).current_mods == old(self).current_mods,
            final(self).install_mods == old(self).install_mods,
            final(self).uninstall_mods == old(self).uninstall_mods,
            final(self).registries == old(self).registries,
            final(self).records == old(self).records,
            final(self).loading_registry == old(self).loading_registry,
            final(self).need_current_mods_update == old(self).need_current_mods_update,
            final(self).need_records_update == old(self).need_records_update,
    {
        let mut d: Download = Download::new(id, url);
        d.start();
        self.downloads.push(d);
        proof {
            assert(self.downloads@.drop_last() =~= old(self).downloads@);
        }
    }

    /// Feeds a download event to the pool: progress updates the matching
    /// task; a successful finish removes it and hands the fetched file's
    /// path back so an install can be queued; a failed finish leaves the
    /// task behind, marked failed.
    pub fn download_updated(&mut self, id: &str, update: DownloadUpdate) -> (r: Option<String>)
        requires
            old(self).wf(),
        ensures
            final(self).wf(),
            final(self).installs == old(self).installs,
            final(self).uninstalls == old(self).uninstalls,
            final(self).mod_manager == old(self).mod_manager,
            final(self).current_mods == old(self).current_mods,
            final(self).install_mods == old(self).install_mods,
            final(self).uninstall_mods == old(self).uninstall_mods,
            final(self).registries == old(self).registries,
            final(self).records == old(self).records,
            final(self).loading_registry == old(self).loading_registry,
            final(self).need_current_mods_update == old(self).need_current_mods_update,
            final(self).need_records_update == old(self).need_records_update,
            first_download_idx(old(self).downloads@, id@) < 0 ==> final(self).downloads == old(self).downloads && r is None,
            first_download_idx(old(self).downloads@, id@) >= 0 ==> {
                let k = first_download_idx(old(self).downloads@, id@);
                let after = download_after(old(self).downloads@[k], update);
                match update {
                    DownloadUpdate::Downloading(_) => final(self).downloads@ == old(
                        self,
                    ).downloads@.update(k, after) && r is None,
                    DownloadUpdate::Finished(res) => match res {
                        Ok(path) => final(self).downloads@ == old(self).downloads@.remove(k) && r
                            == Some(path),
                        Err(_) => final(self).downloads@ == old(self).downloads@.update(k, after)
                            && r is None,
                    },
                }
            },
    {
        let mut i: usize = 0;
        let n: usize = self.downloads.len();
        while i < n
            invariant
                i <= n,
                n == self.downloads@.len(),
                self.downloads == old(self).downloads,
                self.installs == old(self).installs,
                self.uninstalls == old(self).uninstalls,
                self.mod_manager == old(self).mod_manager,
                self.current_mods == old(self).current_mods,
                self.install_mods == old(self).install_mods,
                self.uninstall_mods == old(self).uninstall_mods,
                self.registries == old(self).registries,
                self.records == old(self).records,
                self.loading_registry == old(self).loading_registry,
                self.need_current_mods_update == old(self).need_current_mods_update,
                self.need_records_update == old(self).need_records_update,
                self.wf(),
                forall|j: int| 0 <= j < i ==> (#[trigger] self.downloads@[j]).id@ != id@,
            decreases n - i,
        {
            if crate::text::str_eq(self.downloads[i].id.as_str(), id) {
                proof {
                    lemma_first_download_idx_found(self.downloads@, id@, i as int);
                }
                let mut t: Download = self.downloads.remove(i);
                let ghost t0 = t;
                let keep: bool = match &update {
                    DownloadUpdate::Downloading(_) => true,
                    DownloadUpdate::Finished(res) => !res.is_ok(),
                };
                let mut out: Option<String> = None;
                match &update {
                    DownloadUpdate::Downloading(p) => {
                        t.update(DownloadUpdate::Downloading(*p));
                    },
                    DownloadUpdate::Finished(res) => {
                        match res {
                            Ok(path) => {
                                t.update(DownloadUpdate::Finished(Ok(path.clone())));
                                out = Some(path.clone());
                            },
                            Err(e) => {
                                t.update(DownloadUpdate::Finished(Err(*e)));
                            },
                        }
                    },
                }
                if keep {
                    self.downloads.insert(i, t);
                    proof {
                        assert(self.downloads@ =~= old(self).downloads@.update(
                            i as int,
                            download_after(t0, update),
                        ));
                    }
                } else {
                    proof {
                        assert(self.downloads@ =~= old(self).downloads@.remove(i as int));
                    }
                }
                return out;
            }
            i = i + 1;
        }
        proof {
            lemma_first_download_idx_absent(self.downloads@, id@);
        }
        None
    }

    /// Queues the install of a downloaded archive. When the handle is
    /// idle the task starts at once and the directive carries the handle
    /// and the work out; otherwise the task waits its turn in the queue.
    pub fn install_mod(&mut self, id: &str, path: &str, version: &str, ty: &str) -> (d: Option<
        Directive,
    >)
        requires
            old(self).wf(),
        ensures
            final(self).wf(),
            final(self).downloads == old(self).downloads,
            final(self).uninstalls == old(self).uninstalls,
            final(self).current_mods == old(self).current_mods,
            final(self).install_mods == old(self).install_mods,
            final(self).uninstall_mods == old(self).uninstall_mods,
            final(self).registries == old(self).registries,
            final(self).records == old(self).records,
            final(self).loading_registry == old(self).loading_registry,
            final(self).need_current_mods_update == old(self).need_current_mods_update,
            final(self).need_records_update == old(self).need_records_update,
            old(self).mod_manager is None ==> {
                &&& final(self).mod_manager is None
                &&& final(self).installs@.len() == old(self).installs@.len() + 1
                &&& final(self).installs@.last().id@ == id@
                &&& final(self).installs@.last().path@ == path@
                &&& final(self).installs@.last().version@ == version@
                &&& final(self).installs@.last().ty@ == ty@
                &&& final(self).installs@.last().state is Ready
                &&& final(self).installs@.drop_last() == old(self).installs@
                &&& d is None
            },
            old(self).mod_manager matches Some(mm) ==> {
                &&& final(self).mod_manager is None
                &&& final(self).installs@.len() == old(self).installs@.len() + 1
                &&& final(self).installs@.last().id@ == id@
                &&& final(self).installs@.last().path@ == path@
                &&& final(self).installs@.last().version@ == version@
                &&& final(self).installs@.last().ty@ == ty@
                &&& final(self).installs@.last().state == InstallState::Running {
                    progress: init_progress(),
                }
                &&& final(self).installs@.drop_last() == old(self).installs@
                &&& (d matches Some(dd) && (dd matches Directive::RunInstall {
                    manager,
                    id: di,
                    path: dp,
                    version: dv,
                    ty: dt,
                } && manager == mm && di@ == id@ && dp@ == path@ && dv@ == version@ && dt@
                    == ty@))
            },
    {
        let mut t: Install = Install::new(id, path, version, ty);
        match self.mod_manager.take() {
            None => {
                proof {
                    lemma_installs_running_push(self.installs@, t);
                }
                self.installs.push_back(t);
                proof {
                    assert(self.installs@.drop_last() =~= old(self).installs@);
                }
                None
            },
            Some(mm) => {
                t.start();
                proof {
                    lemma_installs_running_push(self.installs@, t);
                }
                let id_out: String = t.id.clone();
                let path_out: String = t.path.clone();
                let version_out: String = t.version.clone();
                let ty_out: String = t.ty.clone();
                self.installs.push_back(t);
                proof {
                    assert(self.installs@.drop_last() =~= old(self).installs@);
                }
                Some(Directive::RunInstall {
                    manager: mm,
                    id: id_out,
                    path: path_out,
                    version: version_out,
                    ty: ty_out,
                })
            },
        }
    }

    /// Queues the uninstall of a mod. When the handle is idle the task
    /// starts at once; otherwise it waits its turn.
    pub fn uninstall_mod(&mut self, id: &str) -> (d: Option<Directive>)
        requires
            old(self).wf(),
        ensures
            final(self).wf(),
            final(self).downloads == old(self).downloads,
            final(self).installs == old(self).installs,
            final(self).current_mods == old(self).current_mods,
            final(self).install_mods == old(self).install_mods,
            final(self).uninstall_mods == old(self).uninstall_mods,
            final(self).registries == old(self).registries,
            final(self).records == old(self).records,
            final(self).loading_registry == old(self).loading_registry,
            final(self).need_current_mods_update == old(self).need_current_mods_update,
            final(self).need_records_update == old(self).need_records_update,
            old(self).mod_manager is None ==> {
                &&& final(self).mod_manager is None
                &&& final(self).uninstalls@.len() == old(self).uninstalls@.len() + 1
                &&& final(self).uninstalls@.last().id@ == id@
                &&& final(self).uninstalls@.last().state is Ready
                &&& final(self).uninstalls@.drop_last() == old(self).uninstalls@
                &&& d is None
            },
            old(self).mod_manager matches Some(mm) ==> {
                &&& final(self).mod_manager is None
                &&& final(self).uninstalls@.len() == old(self).uninstalls@.len() + 1
                &&& final(self).uninstalls@.last().id@ == id@
                &&& final(self).uninstalls@.last().state == UninstallState::Running {
                    progress: init_progress(),
                }
                &&& final(self).uninstalls@.drop_last() == old(self).uninstalls@
                &&& (d matches Some(dd) && (dd matches Directive::RunUninstall {
                    manager,
                    id: di,
                } && manager == mm && di@ == id@))
            },
    {
        let mut t: Uninstall = Uninstall::new(id);
        match self.mod_manager.take() {
            None => {
                proof {
                    lemma_uninstalls_running_push(self.uninstalls@, t);
                }
                self.uninstalls.push_back(t);
                proof {
                    assert(self.uninstalls@.drop_last() =~= old(self).uninstalls@);
                }
                None
            },
            Some(mm) => {
                t.start();
                proof {
                    lemma_uninstalls_running_push(self.uninstalls@, t);
                }
                let id_out: String = t.id.clone();
                self.uninstalls.push_back(t);
                proof {
                    assert(self.uninstalls@.drop_last() =~= old(self).uninstalls@);
                }
                Some(Directive::RunUninstall { manager: mm, id: id_out })
            },
        }
    }

    /// Asks for the manifest cache to be re-read: served at once when the
    /// handle is idle, deferred to the next idle moment otherwise.
    pub fn queue_update_records(&mut self) -> (d: Option<Directive>)
        requires
            old(self).wf(),
        ensures
            final(self).wf(),
            final(self).downloads == old(self).downloads,
            final(self).installs == old(self).installs,
            final(self).uninstalls == old(self).uninstalls,
            final(self).current_mods == old(self).current_mods,
            final(self).install_mods == old(self).install_mods,
            final(self).uninstall_mods == old(self).uninstall_mods,
            final(self).registries == old(self).registries,
            final(self).records == old(self).records,
            final(self).loading_registry == old(self).loading_registry,
            final(self).need_current_mods_update == old(self).need_current_mods_update,
            old(self).mod_manager matches Some(mm) ==> final(self).mod_manager is None && final(self).need_records_update == old(self).need_records_update && (d matches Some(dd) && (dd
                matches Directive::RefreshRecords { manager } && manager == mm)),
            old(self).mod_manager is None ==> final(self).mod_manager is None && final(self).need_records_update && d is None,
    {
        match self.mod_manager.take() {
            Some(mm) => Some(Directive::RefreshRecords { manager: mm }),
            None => {
                self.need_records_update = true;
                None
            },
        }
    }

    /// Asks for the installed-mods cache to be re-read: served at once
    /// when the handle is idle, deferred otherwise.
    pub fn queue_update_current_mods(&mut self) -> (d: Option<Directive>)
        requires
            old(self).wf(),
        ensures
            final(self).wf(),
            final(self).downloads == old(self).downloads,
            final(self).installs == old(self).installs,
            final(self).uninstalls == old(self).uninstalls,
            final(self).current_mods == old(self).current_mods,
            final(self).install_mods == old(self).install_mods,
            final(self).uninstall_mods == old(self).uninstall_mods,
            final(self).registries == old(self).registries,
            final(self).records == old(self).records,
            final(self).loading_registry == old(self).loading_registry,
            final(self).need_records_update == old(self).need_records_update,
            old(self).mod_manager matches Some(mm) ==> final(self).mod_manager is None && final(self).need_current_mods_update == old(self).need_current_mods_update && (d matches Some(
                dd,
            ) && (dd matches Directive::RefreshCurrentMods { manager } && manager == mm)),
            old(self).mod_manager is None ==> final(self).mod_manager is None && final(self).need_current_mods_update && d is None,
    {
        match self.mod_manager.take() {
            Some(mm) => Some(Directive::RefreshCurrentMods { manager: mm }),
            None => {
                self.need_current_mods_update = true;
                None
            },
        }
    }

    /// Takes a freshly read manifest into the cache.
    pub fn set_records(&mut self, records: Records)
        requires
            old(self).wf(),
            records.wf(),
        ensures
            final(self).wf(),
            final(self).records == records,
            final(self).downloads == old(self).downloads,
            final(self).installs == old(self).installs,
            final(self).uninstalls == old(self).uninstalls,
            final(self).mod_manager == old(self).mod_manager,
            final(self).current_mods == old(self).current_mods,
            final(self).install_mods == old(self).install_mods,
            final(self).uninstall_mods == old(self).uninstall_mods,
            final(self).registries == old(self).registries,
            final(self).loading_registry == old(self).loading_registry,
            final(self).need_current_mods_update == old(self).need_current_mods_update,
            final(self).need_records_update == old(self).need_records_update,
    {
        self.records = records;
    }

    /// Takes a freshly read list of installed mods into the cache.
    pub fn set_current_mods(&mut self, mods: Vec<String>)
        requires
            old(self).wf(),
            str_dup_free(mods@),
        ensures
            final(self).wf(),
            final(self).current_mods == mods,
            final(self).downloads == old(self).downloads,
            final(self).installs == old(self).installs,
            final(self).uninstalls == old(self).uninstalls,
            final(self).mod_manager == old(self).mod_manager,
            final(self).install_mods == old(self).install_mods,
            final(self).uninstall_mods == old(self).uninstall_mods,
            final(self).registries == old(self).registries,
            final(self).records == old(self).records,
            final(self).loading_registry == old(self).loading_registry,
            final(self).need_current_mods_update == old(self).need_current_mods_update,
            final(self).need_records_update == old(self).need_records_update,
    {
        self.current_mods = mods;
    }

    /// Books the result of the running install: a finished task leaves
    /// the queue, a failed one stays behind marked failed and is
    /// discarded when the scheduler next reaches it.
    pub fn finish_install_task(&mut self, id: &str, ok: bool)
        requires
            old(self).wf(),
        ensures
            final(self).wf(),
            final(self).downloads == old(self).downloads,
            final(self).uninstalls == old(self).uninstalls,
            final(self).mod_manager == old(self).mod_manager,
            final(self).current_mods == old(self).current_mods,
            final(self).install_mods == old(self).install_mods,
            final(self).uninstall_mods == old(self).uninstall_mods,
            final(self).registries == old(self).registries,
            final(self).records == old(self).records,
            final(self).loading_registry == old(self).loading_registry,
            final(self).need_current_mods_update == old(self).need_current_mods_update,
            final(self).need_records_update == old(self).need_records_update,
            first_install_idx(old(self).installs@, id@) < 0 ==> final(self).installs == old(self).installs,
            first_install_idx(old(self).installs@, id@) >= 0 && ok ==> final(self).installs@
                == old(self).installs@.remove(first_install_idx(old(self).installs@, id@)),
            first_install_idx(old(self).installs@, id@) >= 0 && !ok ==> final(self).installs@
                == old(self).installs@.update(
                first_install_idx(old(self).installs@, id@),
                settled_install(old(self).installs@[first_install_idx(old(self).installs@, id@)]),
            ),
    {
        let mut i: usize = 0;
        let n: usize = self.installs.len();
        while i < n
            invariant
                i <= n,
                n == self.installs@.len(),
                self.downloads == old(self).downloads,
                self.installs == old(self).installs,
                self.uninstalls == old(self).uninstalls,
                self.mod_manager == old(self).mod_manager,
                self.current_mods == old(self).current_mods,
                self.install_mods == old(self).install_mods,
                self.uninstall_mods == old(self).uninstall_mods,
                self.registries == old(self).registries,
                self.records == old(self).records,
                self.loading_registry == old(self).loading_registry,
                self.need_current_mods_update == old(self).need_current_mods_update,
                self.need_records_update == old(self).need_records_update,
                self.wf(),
                forall|j: int| 0 <= j < i ==> (#[trigger] self.installs@[j]).id@ != id@,
            decreases n - i,
        {
            if crate::text::str_eq(self.installs[i].id.as_str(), id) {
                proof {
                    lemma_first_install_idx_found(self.installs@, id@, i as int);
                }
                let topt: Option<Install> = self.installs.remove(i);
                proof {
                    lemma_installs_running_remove(old(self).installs@, i as int);
                }
                let mut t: Install = match topt {
                    Some(t) => t,
                    None => {
                        proof {
                            assert(false);
                        }
                        Install::new("", "", "", "")
                    },
                };
                if !ok {
                    match t.state {
                        InstallState::Running { .. } => {
                            t.state = InstallState::Failed;
                        },
                        _ => {},
                    }
                    proof {
                        lemma_installs_running_update(
                            old(self).installs@,
                            i as int,
                            settled_install(old(self).installs@[i as int]),
                        );
                    }
                    self.installs.insert(i, t);
                    proof {
                        assert(self.installs@ =~= old(self).installs@.update(
                            i as int,
                            settled_install(old(self).installs@[i as int]),
                        ));
                    }
                }
                return ;
            }
            i = i + 1;
        }
        proof {
            lemma_first_install_idx_absent(self.installs@, id@);
        }
    }

    /// Books the result of the running uninstall, like
    /// `finish_install_task` does for installs.
    pub fn finish_uninstall_task(&mut self, id: &str, ok: bool)
        requires
            old(self).wf(),
        ensures
            final(self).wf(),
            final(self).downloads == old(self).downloads,
            final(self).installs == old(self).installs,
            final(self).mod_manager == old(self).mod_manager,
            final(self).current_mods == old(self).current_mods,
            final(self).install_mods == old(self).install_mods,
            final(self).uninstall_mods == old(self).uninstall_mods,
            final(self).registries == old(self).registries,
            final(self).records == old(self).records,
            final(self).loading_registry == old(self).loading_registry,
            final(self).need_current_mods_update == old(self).need_current_mods_update,
            final(self).need_records_update == old(self).need_records_update,
            first_uninstall_idx(old(self).uninstalls@, id@) < 0 ==> final(self).uninstalls == old(self).uninstalls,
            first_uninstall_idx(old(self).uninstalls@, id@) >= 0 && ok ==> final(self).uninstalls@
                == old(self).uninstalls@.remove(first_uninstall_idx(old(self).uninstalls@, id@)),
            first_uninstall_idx(old(self).uninstalls@, id@) >= 0 && !ok ==> final(self).uninstalls@
                == old(self).uninstalls@.update(
                first_uninstall_idx(old(self).uninstalls@, id@),
                settled_uninstall(
                    old(self).uninstalls@[first_uninstall_idx(old(self).uninstalls@, id@)],
                ),
            ),
    {
        let mut i: usize = 0;
        let n: usize = self.uninstalls.len();
        while i < n
            invariant
                i <= n,
                n == self.uninstalls@.len(),
                self.downloads == old(self).downloads,
                self.installs == old(self).installs,
                self.uninstalls == old(self).uninstalls,
                self.mod_manager == old(self).mod_manager,
                self.current_mods == old(self).current_mods,
                self.install_mods == old(self).install_mods,
                self.uninstall_mods == old(self).uninstall_mods,
                self.registries == old(self).registries,
                self.records == old(self).records,
                self.loading_registry == old(self).loading_registry,
                self.need_current_mods_update == old(self).need_current_mods_update,
                self.need_records_update == old(self).need_records_update,
                self.wf(),
                forall|j: int| 0 <= j < i ==> (#[trigger] self.uninstalls@[j]).id@ != id@,
            decreases n - i,
        {
            if crate::text::str_eq(self.uninstalls[i].id.as_str(), id) {
                proof {
                    lemma_first_uninstall_idx_found(self.uninstalls@, id@, i as int);
                }
                let topt: Option<Uninstall> = self.uninstalls.remove(i);
                proof {
                    lemma_uninstalls_running_remove(old(self).uninstalls@, i as int);
                }
                let mut t: Uninstall = match topt {
                    Some(t) => t,
                    None => {
                        proof {
                            assert(false);
                        }
                        Uninstall::new("")
                    },
                };
                if !ok {
                    match t.state {
                        UninstallState::Running { .. } => {
                            t.state = UninstallState::Failed;
                        },
                        _ => {},
                    }
                    proof {
                        lemma_uninstalls_running_update(
                            old(self).uninstalls@,
                            i as int,
                            settled_uninstall(old(self).uninstalls@[i as int]),
                        );
                    }
                    self.uninstalls.insert(i, t);
                    proof {
                        assert(self.uninstalls@ =~= old(self).uninstalls@.update(
                            i as int,
                            settled_uninstall(old(self).uninstalls@[i as int]),
                        ));
                    }
                }
                return ;
            }
            i = i + 1;
        }
        proof {
            lemma_first_uninstall_idx_absent(self.uninstalls@, id@);
        }
    }
}

/// A download after one event, as `Download::update` leaves it.
pub open spec fn download_after(t: Download, u: DownloadUpdate) -> Download {
    if t.state matches DownloadState::Running { .. } {
        Download {
            id: t.id,
            url: t.url,
            state: match u {
                DownloadUpdate::Downloading(p) => DownloadState::Running { progress: p },
                DownloadUpdate::Finished(res) => if res is Ok {
                    DownloadState::Finished
                } else {
                    DownloadState::Failed
                },
            },
        }
    } else {
        t
    }
}

/// An install task once its operation's result is booked: a running task
/// settles into failed, any other keeps its state.
pub open spec fn settled_install(t: Install) -> Install {
    if t.state matches InstallState::Running { .. } {
        Install { id: t.id, path: t.path, version: t.version, ty: t.ty, state: InstallState::Failed }
    } else {
        t
    }
}

/// An uninstall task once its operation's result is booked.
pub open spec fn settled_uninstall(t: Uninstall) -> Uninstall {
    if t.state matches UninstallState::Running { .. } {
        Uninstall { id: t.id, state: UninstallState::Failed }
    } else {
        t
    }
}

/// The position of the first download for `id`, or `-1`.
pub open spec fn first_download_idx(q: Seq<Download>, id: Seq<char>) -> int
    decreases q.len(),
{
    if q.len() == 0 {
        -1
    } else if q[0].id@ == id {
        0
    } else if first_download_idx(q.drop_first(), id) < 0 {
        -1
    } else {
        first_download_idx(q.drop_first(), id) + 1
    }
}

/// The position of the first queued install for `id`, or `-1`.
pub open spec fn first_install_idx(q: Seq<Install>, id: Seq<char>) -> int
    decreases q.len(),
{
    if q.len() == 0 {
        -1
    } else if q[0].id@ == id {
        0
    } else if first_install_idx(q.drop_first(), id) < 0 {
        -1
    } else {
        first_install_idx(q.drop_first(), id) + 1
    }
}

/// The position of the first queued uninstall for `id`, or `-1`.
pub open spec fn first_uninstall_idx(q: Seq<Uninstall>, id: Seq<char>) -> int
    decreases q.len(),
{
    if q.len() == 0 {
        -1
    } else if q[0].id@ == id {
        0
    } else if first_uninstall_idx(q.drop_first(), id) < 0 {
        -1
    } else {
        first_uninstall_idx(q.drop_first(), id) + 1
    }
}

/// `first_download_idx` answers `i` when `id` first occurs at `i`.
pub proof fn lemma_first_download_idx_found(q: Seq<Download>, id: Seq<char>, i: int)
    requires
        0 <= i < q.len(),
        q[i].id@ == id,
        forall|j: int| 0 <= j < i ==> (#[trigger] q[j]).id@ != id,
    ensures
        first_download_idx(q, id) == i,
    decreases i,
{
    if i > 0 {
        assert(q.drop_first()[i - 1] == q[i]);
        assert(forall|j: int| 0 <= j < i - 1 ==> (#[trigger] q.drop_first()[j]) == q[j + 1]);
        lemma_first_download_idx_found(q.drop_first(), id, i - 1);
    }
}

/// `first_download_idx` answers `-1` when `id` does not occur.
pub proof fn lemma_first_download_idx_absent(q: Seq<Download>, id: Seq<char>)
    requires
        forall|j: int| 0 <= j < q.len() ==> (#[trigger] q[j]).id@ != id,
    ensures
        first_download_idx(q, id) == -1,
    decreases q.len(),
{
    if q.len() > 0 {
        assert(forall|j: int| 0 <= j < q.len() - 1 ==> (#[trigger] q.drop_first()[j]) == q[j + 1]);
        lemma_first_download_idx_absent(q.drop_first(), id);
    }
}

/// `first_install_idx` answers `i` when `id` first occurs at `i`.
pub proof fn lemma_first_install_idx_found(q: Seq<Install>, id: Seq<char>, i: int)
    requires
        0 <= i < q.len(),
        q[i].id@ == id,
        forall|j: int| 0 <= j < i ==> (#[trigger] q[j]).id@ != id,
    ensures
        first_install_idx(q, id) == i,
    decreases i,
{
    if i > 0 {
        assert(q.drop_first()[i - 1] == q[i]);
        assert(forall|j: int| 0 <= j < i - 1 ==> (#[trigger] q.drop_first()[j]) == q[j + 1]);
        lemma_first_install_idx_found(q.drop_first(), id, i - 1);
    }
}

/// `first_install_idx` answers `-1` when `id` does not occur.
pub proof fn lemma_first_install_idx_absent(q: Seq<Install>, id: Seq<char>)
    requires
        forall|j: int| 0 <= j < q.len() ==> (#[trigger] q[j]).id@ != id,
    ensures
        first_install_idx(q, id) == -1,
    decreases q.len(),
{
    if q.len() > 0 {
        assert(forall|j: int| 0 <= j < q.len() - 1 ==> (#[trigger] q.drop_first()[j]) == q[j + 1]);
        lemma_first_install_idx_absent(q.drop_first(), id);
    }
}

/// `first_uninstall_idx` answers `i` when `id` first occurs at `i`.
pub proof fn lemma_first_uninstall_idx_found(q: Seq<Uninstall>, id: Seq<char>, i: int)
    requires
        0 <= i < q.len(),
        q[i].id@ == id,
        forall|j: int| 0 <= j < i ==> (#[trigger] q[j]).id@ != id,
    ensures
        first_uninstall_idx(q, id) == i,
    decreases i,
{
    if i > 0 {
        assert(q.drop_first()[i - 1] == q[i]);
        assert(forall|j: int| 0 <= j < i - 1 ==> (#[trigger] q.drop_first()[j]) == q[j + 1]);
        lemma_first_uninstall_idx_found(q.drop_first(), id, i - 1);
    }
}

/// `first_uninstall_idx` answers `-1` when `id` does not occur.
pub proof fn lemma_first_uninstall_idx_absent(q: Seq<Uninstall>, id: Seq<char>)
    requires
        forall|j: int| 0 <= j < q.len() ==> (#[trigger] q[j]).id@ != id,
    ensures
        first_uninstall_idx(q, id) == -1,
    decreases q.len(),
{
    if q.len() > 0 {
        assert(forall|j: int| 0 <= j < q.len() - 1 ==> (#[trigger] q.drop_first()[j]) == q[j + 1]);
        lemma_first_uninstall_idx_absent(q.drop_first(), id);
    }
}

/// `first_holder` answers `i` when registry `i` is the first to list `id`.
pub proof fn lemma_first_holder_found(regs: Seq<Registry>, id: Seq<char>, i: int)
    requires
        0 <= i < regs.len(),
        regs[i]@.contains_key(id),
        forall|j: int| 0 <= j < i ==> !(#[trigger] regs[j])@.contains_key(id),
    ensures
        first_holder(regs, id) == i,
    decreases i,
{
    if i > 0 {
        assert(regs.drop_first()[i - 1] == regs[i]);
        assert(forall|j: int| 0 <= j < i - 1 ==> (#[trigger] regs.drop_first()[j]) == regs[j + 1]);
        lemma_first_holder_found(regs.drop_first(), id, i - 1);
    }
}

/// `first_holder` answers `-1` when no registry lists `id`.
pub proof fn lemma_first_holder_absent(regs: Seq<Registry>, id: Seq<char>)
    requires
        forall|j: int| 0 <= j < regs.len() ==> !(#[trigger] regs[j])@.contains_key(id),
    ensures
        first_holder(regs, id) == -1,
    decreases regs.len(),
{
    if regs.len() > 0 {
        assert(forall|j: int| 0 <= j < regs.len() - 1 ==> (#[trigger] regs.drop_first()[j])
            == regs[j + 1]);
        lemma_first_holder_absent(regs.drop_first(), id);
    }
}

} // verus!
