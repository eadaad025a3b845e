//! The scheduler: systems are registered with a name, declared read and
//! write sets and a runs-after list; building yields a deterministic
//! execution order or a configuration error, and dispatching runs every
//! system once in that order.

use vstd::prelude::*;

use crate::ai::Ai;
use crate::animator::Animator;
use crate::animator::animator_step;
use crate::keyboard::Keyboard;
use crate::keyboard::keyboard_step;
use crate::physics::Physics;
use crate::physics::physics_step;
use crate::world::FrameContext;
use crate::world::World;
use crate::world::WorldView;

verus! {

/// The component tables and per-tick resources a system can declare in its
/// read or write set.
#[derive(Debug, Clone, Copy, PartialEq, Eq, Structural)]
pub enum DataKind {
    Positions,
    Velocities,
    Sprites,
    Animations,
    KeyboardTags,
    EnemyTags,
    ItemTags,
    EntityLiveness,
    MovementIntent,
    ViewportRegion,
    ElapsedTime,
}

/// The executable systems this pipeline knows how to run.
#[derive(Debug, Clone, Copy, PartialEq, Eq, Structural)]
pub enum SystemKind {
    Intent,
    Behavior,
    Movement,
    Animation,
}

/// A configuration mistake caught when the schedule is built, never at
/// dispatch time.
#[derive(Debug, Clone, Copy, PartialEq, Eq, Structural)]
pub enum ConfigError {
    /// Some runs-after list names a system that was never registered.
    UnknownDependency,
    /// Two systems declare overlapping write sets without a runs-after
    /// edge between them, so no safe concurrent order exists.
    WriteConflict,
    /// The runs-after graph admits no execution order.
    DependencyCycle,
}

/// One registered system.
#[derive(Debug)]
pub struct SystemDecl {
    pub kind: SystemKind,
    pub name: String,
    pub reads: Vec<DataKind>,
    pub writes: Vec<DataKind>,
    pub after: Vec<String>,
}

/// Mathematical image of a registration.
#[verifier::ext_equal]
pub ghost struct SystemDeclView {
    pub kind: SystemKind,
    pub name: Seq<char>,
    pub reads: Seq<DataKind>,
    pub writes: Seq<DataKind>,
    pub after: Seq<Seq<char>>,
}

impl View for SystemDecl {
    type V = SystemDeclView;

    open spec fn view(&self) -> SystemDeclView {
        SystemDeclView {
            kind: self.kind,
            name: self.name@,
            reads: self.reads@,
            writes: self.writes@,
            after: self.after@.map_values(|x: String| x@),
        }
    }
}

pub open spec fn views(systems: Seq<SystemDecl>) -> Seq<SystemDeclView> {
    systems.map_values(|d: SystemDecl| d@)
}

/// System `i` names system `j` in its runs-after list.
pub open spec fn runs_after(s: Seq<SystemDeclView>, i: int, j: int) -> bool {
    &&& 0 <= i < s.len()
    &&& 0 <= j < s.len()
    &&& s[i].after.contains(s[j].name)
}

pub open spec fn name_known(s: Seq<SystemDeclView>, nm: Seq<char>) -> bool {
    exists|j: int| 0 <= j < s.len() && s[j].name == nm
}

pub open spec fn has_unknown_dependency(s: Seq<SystemDeclView>) -> bool {
    exists|i: int, t: int|
        0 <= i < s.len() && 0 <= t < s[i].after.len() && !name_known(s, s[i].after[t])
}

pub open spec fn writes_overlap(a: SystemDeclView, b: SystemDeclView) -> bool {
    exists|x: DataKind| a.writes.contains(x) && b.writes.contains(x)
}

/// Two distinct systems write a common kind and neither runs after the
/// other: were they run concurrently the result could depend on timing.
pub open spec fn conflict_pair(s: Seq<SystemDeclView>, i: int, j: int) -> bool {
    &&& 0 <= i < s.len()
    &&& 0 <= j < s.len()
    &&& i != j
    &&& writes_overlap(s[i], s[j])
    &&& !s[i].after.contains(s[j].name)
    &&& !s[j].after.contains(s[i].name)
}

pub open spec fn has_write_conflict(s: Seq<SystemDeclView>) -> bool {
    exists|i: int, j: int| conflict_pair(s, i, j)
}

/// `ord` is a permutation of all registered systems that places every
/// system after each system it is declared to run after.
pub open spec fn valid_order(s: Seq<SystemDeclView>, ord: Seq<usize>) -> bool {
    &&& ord.len() == s.len()
    &&& forall|p: int| 0 <= p < ord.len() ==> (ord[p] as int) < s.len()
    &&& forall|p: int, q: int| 0 <= p < q < ord.len() ==> ord[p] != ord[q]
    &&& forall|v: int| 0 <= v < s.len() ==> ord.contains(#[trigger] (v as usize))
    &&& forall|p: int, q: int| #![all_triggers]
        0 <= p < ord.len() && 0 <= q < ord.len() && runs_after(s, ord[p] as int, ord[q] as int)
            ==> q < p
}

pub open spec fn schedulable(s: Seq<SystemDeclView>) -> bool {
    exists|ord: Seq<usize>| valid_order(s, ord)
}

/// Remaining ties are broken by registration order: whenever a system is
/// placed, no unplaced system of lower registration index had all of its
/// prerequisites placed.
pub open spec fn greedy_min(s: Seq<SystemDeclView>, ord: Seq<usize>) -> bool {
    forall|p: int, j: int|
        0 <= p < ord.len() && 0 <= j < (ord[p] as int) && !(#[trigger] ord.subrange(0, p).contains(
            j as usize,
        )) ==> exists|k: int| runs_after(s, j, k) && !ord.subrange(0, p).contains(k as usize)
}

/// Every prerequisite of `j` is already placed.
pub open spec fn dep_clear(s: Seq<SystemDeclView>, placed: Seq<bool>, j: int) -> bool {
    forall|k: int| runs_after(s, j, k) ==> placed[k]
}

spec fn count_trues(s: Seq<bool>) -> int
    decreases s.len(),
{
    if s.len() == 0 {
        0
    } else {
        count_trues(s.drop_last()) + if s.last() {
            1int
        } else {
            0int
        }
    }
}

proof fn lemma_count_le_len(s: Seq<bool>)
    ensures
        0 <= count_trues(s) <= s.len(),
    decreases s.len(),
{
    if s.len() > 0 {
        lemma_count_le_len(s.drop_last());
    }
}

proof fn lemma_count_full(s: Seq<bool>)
    requires
        count_trues(s) == s.len(),
    ensures
        forall|i: int| 0 <= i < s.len() ==> s[i],
    decreases s.len(),
{
    if s.len() > 0 {
        lemma_count_le_len(s.drop_last());
        if s.last() {
            lemma_count_full(s.drop_last());
            assert forall|i: int| 0 <= i < s.len() implies s[i] by {
                if i < s.len() - 1 {
                    assert(s.drop_last()[i]);
                }
            }
        }
    }
}

proof fn lemma_count_partial(s: Seq<bool>)
    requires
        count_trues(s) < s.len(),
    ensures
        exists|i: int| 0 <= i < s.len() && !s[i],
    decreases s.len(),
{
    if s.len() > 0 {
        if s.last() {
            lemma_count_partial(s.drop_last());
            let i = choose|i: int| 0 <= i < s.drop_last().len() && !s.drop_last()[i];
            assert(!s[i]);
        } else {
            assert(!s[s.len() - 1]);
        }
    }
}

proof fn lemma_count_update_true(s: Seq<bool>, i: int)
    requires
        0 <= i < s.len(),
        !s[i],
    ensures
        count_trues(s.update(i, true)) == count_trues(s) + 1,
    decreases s.len(),
{
    let su = s.update(i, true);
    if i == s.len() - 1 {
        assert(su.drop_last() =~= s.drop_last());
        assert(su.last());
        assert(!s.last());
    } else {
        assert(su.drop_last() =~= s.drop_last().update(i, true));
        assert(su.last() == s.last());
        lemma_count_update_true(s.drop_last(), i);
    }
}

/// The position of the first entry of `ord`, at or past `start`, whose
/// system is not yet placed.
proof fn lemma_first_unplaced(ord: Seq<usize>, placed: Seq<bool>, start: int) -> (m: int)
    requires
        0 <= start <= ord.len(),
        forall|p: int| 0 <= p < ord.len() ==> (ord[p] as int) < placed.len(),
        exists|p: int| start <= p < ord.len() && !placed[ord[p] as int],
        forall|p: int| 0 <= p < start ==> placed[ord[p] as int],
    ensures
        start <= m < ord.len(),
        !placed[ord[m] as int],
        forall|p: int| 0 <= p < m ==> placed[ord[p] as int],
    decreases ord.len() - start,
{
    let pw = choose|p: int| start <= p < ord.len() && !placed[ord[p] as int];
    if !placed[ord[start] as int] {
        start
    } else {
        assert(pw != start);
        assert(exists|p: int| start + 1 <= p < ord.len() && !placed[ord[p] as int]) by {
            assert(start + 1 <= pw < ord.len() && !placed[ord[pw] as int]);
        }
        lemma_first_unplaced(ord, placed, start + 1)
    }
}

/// When every unplaced system still waits on an unplaced prerequisite and
/// at least one system is unplaced, no complete execution order exists.
proof fn lemma_stuck_unschedulable(s: Seq<SystemDeclView>, placed: Seq<bool>)
    requires
        s.len() <= usize::MAX,
        placed.len() == s.len(),
        exists|v: int| 0 <= v < s.len() && !placed[v],
        forall|j: int| #![all_triggers]
            0 <= j < s.len() && !placed[j] ==> !dep_clear(s, placed, j),
    ensures
        !schedulable(s),
{
    assert forall|ord: Seq<usize>| !valid_order(s, ord) by {
        if valid_order(s, ord) {
            let v0 = choose|v: int| 0 <= v < s.len() && !placed[v];
            assert(ord.contains(v0 as usize));
            let p0 = choose|p: int| 0 <= p < ord.len() && ord[p] == v0 as usize;
            assert((v0 as usize) as int == v0);
            assert(ord[p0] as int == v0);
            assert(!placed[ord[p0] as int]);
            let m = lemma_first_unplaced(ord, placed, 0);
            let jm = ord[m] as int;
            assert(!dep_clear(s, placed, jm));
            let k = choose|k: int| runs_after(s, jm, k) && !placed[k];
            assert(runs_after(s, jm, k) && !placed[k]);
            assert(ord.contains(k as usize));
            let q = choose|q: int| 0 <= q < ord.len() && ord[q] == k as usize;
            assert(0 <= k < s.len());
            assert((k as usize) as int == k);
            assert(ord[q] as int == k);
            assert(runs_after(s, ord[m] as int, ord[q] as int));
            assert(q < m);
            assert(placed[ord[q] as int]);
            assert(false);
        }
    }
}

/// Appending the chosen system preserves every schedule invariant.
#[verifier::rlimit(60)]
proof fn lemma_append_keeps_invariants(
    s: Seq<SystemDeclView>,
    placed0: Seq<bool>,
    order0: Seq<usize>,
    placed1: Seq<bool>,
    order1: Seq<usize>,
    pick: usize,
)
    requires
        s.len() <= usize::MAX,
        placed0.len() == s.len(),
        (pick as int) < s.len(),
        !placed0[pick as int],
        dep_clear(s, placed0, pick as int),
        forall|j2: int| 0 <= j2 < pick ==> !(!placed0[j2] && dep_clear(s, placed0, j2)),
        placed1 == placed0.update(pick as int, true),
        order1 == order0.push(pick),
        forall|p: int| 0 <= p < order0.len() ==> (order0[p] as int) < s.len(),
        forall|p: int, q: int| 0 <= p < q < order0.len() ==> order0[p] != order0[q],
        forall|v: int| #![all_triggers]
            0 <= v < s.len() ==> (placed0[v] == order0.contains(v as usize)),
        forall|v: int, k: int|
            0 <= v < s.len() && placed0[v] && #[trigger] runs_after(s, v, k) ==> placed0[k],
        forall|p: int, q: int|
            0 <= p < order0.len() && 0 <= q < order0.len() && #[trigger] runs_after(
                s,
                order0[p] as int,
                order0[q] as int,
            ) ==> q < p,
        greedy_min(s, order0),
    ensures
        forall|p: int| 0 <= p < order1.len() ==> (order1[p] as int) < s.len(),
        forall|p: int, q: int| 0 <= p < q < order1.len() ==> order1[p] != order1[q],
        forall|v: int| #![all_triggers]
            0 <= v < s.len() ==> (placed1[v] == order1.contains(v as usize)),
        forall|v: int, k: int|
            0 <= v < s.len() && placed1[v] && #[trigger] runs_after(s, v, k) ==> placed1[k],
        forall|p: int, q: int|
            0 <= p < order1.len() && 0 <= q < order1.len() && #[trigger] runs_after(
                s,
                order1[p] as int,
                order1[q] as int,
            ) ==> q < p,
        greedy_min(s, order1),
{
    assert(order1[order0.len() as int] == pick);
    assert forall|p: int, q: int| 0 <= p < q < order1.len() implies order1[p] != order1[q] by {
        if q == order0.len() {
            assert(order1[p] == order0[p]);
            assert(placed0[order0[p] as int]);
        }
    }
    assert forall|v: int| 0 <= v < s.len() implies (placed1[v] == order1.contains(
        #[trigger] (v as usize),
    )) by {
        if v == pick as int {
            assert(order1[order0.len() as int] == v as usize);
            assert(order1.contains(v as usize));
        } else {
            if order1.contains(v as usize) {
                let p = choose|p: int| 0 <= p < order1.len() && order1[p] == v as usize;
                assert(p < order0.len());
                assert(order0[p] == v as usize);
                assert(order0.contains(v as usize));
            }
            if order0.contains(v as usize) {
                let p = choose|p: int| 0 <= p < order0.len() && order0[p] == v as usize;
                assert(order1[p] == v as usize);
            }
        }
    }
    assert forall|v: int, k: int|
        0 <= v < s.len() && placed1[v] && runs_after(s, v, k) implies placed1[k] by {
        if v == pick as int {
            assert(dep_clear(s, placed0, pick as int));
            assert(placed0[k]);
        }
    }
    assert forall|p: int, q: int|
        0 <= p < order1.len() && 0 <= q < order1.len() && runs_after(
            s,
            order1[p] as int,
            order1[q] as int,
        ) implies q < p by {
        if p < order0.len() && q < order0.len() {
            assert(order1[p] == order0[p]);
            assert(order1[q] == order0[q]);
        } else if q == order0.len() {
            if p < order0.len() {
                assert(placed0[order0[p] as int]);
                assert(runs_after(s, order1[p] as int, pick as int));
                assert(placed0[pick as int]);
                assert(false);
            } else {
                assert(p == q);
                assert(runs_after(s, pick as int, pick as int));
                assert(dep_clear(s, placed0, pick as int));
                assert(placed0[pick as int]);
                assert(false);
            }
        }
    }
    assert(order1.subrange(0, order0.len() as int) =~= order0);
    assert forall|p: int, j2: int|
        0 <= p < order1.len() && 0 <= j2 < (order1[p] as int) && !(#[trigger] order1.subrange(
            0,
            p,
        ).contains(j2 as usize)) implies exists|k: int|
        runs_after(s, j2, k) && !order1.subrange(0, p).contains(k as usize) by {
        if p < order0.len() {
            assert(order1.subrange(0, p) =~= order0.subrange(0, p));
            assert(order1[p] == order0[p]);
            let k = choose|k: int|
                runs_after(s, j2, k) && !order0.subrange(0, p).contains(k as usize);
            assert(runs_after(s, j2, k) && !order1.subrange(0, p).contains(k as usize));
        } else {
            assert(p == order0.len());
            assert(order1.subrange(0, p) =~= order0);
            assert(order1[p] == pick);
            assert(!order0.contains(j2 as usize));
            assert(!placed0[j2]);
            assert(!(!placed0[j2] && dep_clear(s, placed0, j2)));
            assert(!dep_clear(s, placed0, j2));
            let k = choose|k: int| runs_after(s, j2, k) && !placed0[k];
            assert(0 <= k < s.len());
            assert(!order0.contains(k as usize));
            assert(runs_after(s, j2, k) && !order1.subrange(0, p).contains(k as usize));
        }
    }
}

/// The mathematical effect of one system on the world.
pub open spec fn run_kind(k: SystemKind, w: WorldView, ctx: FrameContext) -> WorldView {
    match k {
        SystemKind::Intent => keyboard_step(w, ctx.movement_command),
        SystemKind::Behavior => w,
        SystemKind::Movement => physics_step(w, ctx.viewport, ctx.elapsed_ms),
        SystemKind::Animation => animator_step(w),
    }
}

/// Strict sequential execution of a pipeline, first system to last.
pub open spec fn dispatch_seq(ks: Seq<SystemKind>, w: WorldView, ctx: FrameContext) -> WorldView
    decreases ks.len(),
{
    if ks.len() == 0 {
        w
    } else {
        dispatch_seq(ks.drop_first(), run_kind(ks[0], w, ctx), ctx)
    }
}

proof fn lemma_dispatch_seq_snoc(ks: Seq<SystemKind>, w: WorldView, ctx: FrameContext)
    requires
        ks.len() > 0,
    ensures
        dispatch_seq(ks, w, ctx) == run_kind(
            ks[ks.len() - 1],
            dispatch_seq(ks.drop_last(), w, ctx),
            ctx,
        ),
    decreases ks.len(),
{
    reveal_with_fuel(dispatch_seq, 3);
    if ks.len() == 1 {
        assert(ks.drop_last() =~= Seq::<SystemKind>::empty());
        assert(ks.drop_first() =~= Seq::<SystemKind>::empty());
        assert(dispatch_seq(ks, w, ctx) == run_kind(ks[0], w, ctx));
        assert(dispatch_seq(ks.drop_last(), w, ctx) == w);
    } else {
        lemma_dispatch_seq_snoc(ks.drop_first(), run_kind(ks[0], w, ctx), ctx);
        assert(ks.drop_first().drop_last() =~= ks.drop_last().drop_first());
        assert(ks.drop_last()[0] == ks[0]);
        assert(ks.drop_first()[ks.drop_first().len() - 1] == ks[ks.len() - 1]);
        assert(dispatch_seq(ks, w, ctx) == dispatch_seq(
            ks.drop_first(),
            run_kind(ks[0], w, ctx),
            ctx,
        ));
        assert(ks.drop_last().len() > 0);
        assert(dispatch_seq(ks.drop_last(), w, ctx) == dispatch_seq(
            ks.drop_last().drop_first(),
            run_kind(ks.drop_last()[0], w, ctx),
            ctx,
        ));
        assert(dispatch_seq(ks.drop_first().drop_last(), run_kind(ks[0], w, ctx), ctx)
            == dispatch_seq(ks.drop_last(), w, ctx));
    }
}

fn contains_name(v: &Vec<String>, nm: &String) -> (r: bool)
    ensures
        r == v@.map_values(|x: String| x@).contains(nm@),
{
    let n = v.len();
    let mut t: usize = 0;
    let mut found = false;
    while t < n
        invariant
            n == v@.len(),
            t <= n,
            found == exists|t2: int| 0 <= t2 < t && v@[t2]@ == nm@,
        decreases n - t,
    {
        if v[t] == *nm {
            found = true;
        }
        t += 1;
    }
    proof {
        let mv = v@.map_values(|x: String| x@);
        if found {
            let t2 = choose|t2: int| 0 <= t2 < n && v@[t2]@ == nm@;
            assert(mv[t2] == nm@);
            assert(mv.contains(nm@));
        }
        if mv.contains(nm@) {
            let t2 = choose|t2: int| 0 <= t2 < mv.len() && mv[t2] == nm@;
            assert(v@[t2]@ == nm@);
        }
    }
    found
}

fn find_ready(systems: &Vec<SystemDecl>, placed: &Vec<bool>) -> (pick: usize)
    requires
        placed@.len() == systems@.len(),
    ensures
        pick <= systems@.len(),
        pick == systems@.len() ==> forall|j2: int|
            0 <= j2 < systems@.len() ==> !(!placed@[j2] && dep_clear(
                views(systems@),
                placed@,
                j2,
            )),
        pick < systems@.len() ==> !placed@[pick as int] && dep_clear(
            views(systems@),
            placed@,
            pick as int,
        ) && (forall|j2: int|
            0 <= j2 < pick ==> !(!placed@[j2] && dep_clear(views(systems@), placed@, j2))),
{
    let ghost s = views(systems@);
    let n = systems.len();
    let mut pick: usize = n;
    let mut j: usize = 0;
    while j < n
        invariant
            n == systems@.len(),
            s == views(systems@),
            s.len() == n,
            placed@.len() == n,
            j <= n,
            pick == n || ((pick as int) < n && !placed@[pick as int] && dep_clear(
                s,
                placed@,
                pick as int,
            ) && forall|j2: int| 0 <= j2 < pick ==> !(!placed@[j2] && dep_clear(s, placed@, j2))),
            pick == n ==> forall|j2: int|
                0 <= j2 < j ==> !(!placed@[j2] && dep_clear(s, placed@, j2)),
        decreases n - j,
    {
        if pick == n && !placed[j] {
            let mut ok = true;
            let mut k2: usize = 0;
            while k2 < n
                invariant
                    n == systems@.len(),
                    s == views(systems@),
                    s.len() == n,
                    placed@.len() == n,
                    j < n,
                    k2 <= n,
                    ok == forall|k3: int| #![all_triggers]
                        0 <= k3 < k2 && runs_after(s, j as int, k3) ==> placed@[k3],
                decreases n - k2,
            {
                if !placed[k2] {
                    if contains_name(&systems[j].after, &systems[k2].name) {
                        ok = false;
                        proof {
                            assert(runs_after(s, j as int, k2 as int));
                        }
                    }
                }
                k2 += 1;
            }
            proof {
                assert(ok == dep_clear(s, placed@, j as int)) by {
                    if ok {
                        assert forall|k: int| runs_after(s, j as int, k) implies placed@[k] by {
                            assert(0 <= k < n);
                        }
                    }
                }
            }
            if ok {
                pick = j;
            }
        }
        j += 1;
    }
    pick
}

/// Registers systems in order; `build` turns them into a dispatcher.

#[derive(Debug)]
pub struct DispatcherBuilder {
    pub systems: Vec<SystemDecl>,
}

/// Runs the registered systems once per tick in the computed order.
#[derive(Debug)]
pub struct Dispatcher {
    pub systems: Vec<SystemDecl>,
    pub order: Vec<usize>,
}

impl Dispatcher {
    pub open spec fn decls(self) -> Seq<SystemDeclView> {
        views(self.systems@)
    }

    pub open spec fn wf(self) -> bool {
        &&& valid_order(self.decls(), self.order@)
        &&& greedy_min(self.decls(), self.order@)
    }

    /// The system kinds in execution order.
    pub open spec fn kinds(self) -> Seq<SystemKind> {
        Seq::new(self.order@.len(), |p: int| self.decls()[self.order@[p] as int].kind)
    }

    /// Executes every system once. The result is exactly strict sequential
    /// execution in the computed order; any concurrency an implementation
    /// adds for throughput must be observationally invisible, which this
    /// contract pins down.
    pub fn dispatch(&self, world: &mut World, ctx: &FrameContext)
        requires
            old(world).inv(),
            self.wf(),
        ensures
            final(world).inv(),
            final(world)@ == dispatch_seq(self.kinds(), old(world)@, *ctx),
    {
        let ghost w0 = world@;
        let np = self.order.len();
        let mut p: usize = 0;
        while p < np
            invariant
                world.inv(),
                self.wf(),
                np == self.order@.len(),
                p <= np,
                world@ == dispatch_seq(self.kinds().take(p as int), w0, *ctx),
            decreases np - p,
        {
            let idx = self.order[p];
            proof {
                assert((self.order@[p as int] as int) < self.decls().len());
                assert(self.decls().len() == self.systems@.len());
            }
            let kind = self.systems[idx].kind;
            proof {
                assert(kind == self.kinds()[p as int]);
            }
            match kind {
                SystemKind::Intent => {
                    let sys = Keyboard;
                    sys.run(world, ctx);
                },
                SystemKind::Behavior => {
                    let sys = Ai;
                    sys.run(world, ctx);
                },
                SystemKind::Movement => {
                    let sys = Physics;
                    sys.run(world, ctx);
                },
                SystemKind::Animation => {
                    let sys = Animator;
                    sys.run(world, ctx);
                },
            }
            proof {
                let ks = self.kinds();
                assert(ks.take(p as int + 1).drop_last() =~= ks.take(p as int));
                assert(ks.take(p as int + 1)[p as int] == ks[p as int]);
                lemma_dispatch_seq_snoc(ks.take(p as int + 1), w0, *ctx);
            }
            p += 1;
        }
        proof {
            assert(self.kinds().take(np as int) =~= self.kinds());
        }
    }
}

impl DispatcherBuilder {
    pub fn new() -> (r: Self)
        ensures
            r.systems@.len() == 0,
    {
        DispatcherBuilder { systems: Vec::new() }
    }

    /// Registers one system with its name, read and write sets and the
    /// names of the systems that must complete before it.
    pub fn with(
        self,
        kind: SystemKind,
        name: String,
        reads: Vec<DataKind>,
        writes: Vec<DataKind>,
        after: Vec<String>,
    ) -> (r: Self)
        ensures
            r.systems@.len() == self.systems@.len() + 1,
            forall|i: int| 0 <= i < self.systems@.len() ==> r.systems@[i] == self.systems@[i],
            r.systems@[self.systems@.len() as int]@ == (SystemDeclView {
                kind,
                name: name@,
                reads: reads@,
                writes: writes@,
                after: after@.map_values(|x: String| x@),
            }),
    {
        let mut systems = self.systems;
        systems.push(SystemDecl { kind, name, reads, writes, after });
        DispatcherBuilder { systems }
    }

    /// Computes the execution order, or reports the configuration error:
    /// an unknown runs-after name, then a write conflict, then a cycle.
    #[verifier::rlimit(100)]
    pub fn build(self) -> (r: Result<Dispatcher, ConfigError>)
        ensures
            match r {
                Ok(d) => {
                    &&& d.systems@ == self.systems@
                    &&& d.wf()
                    &&& !has_unknown_dependency(views(self.systems@))
                    &&& !has_write_conflict(views(self.systems@))
                    &&& schedulable(views(self.systems@))
                },
                Err(ConfigError::UnknownDependency) => has_unknown_dependency(
                    views(self.systems@),
                ),
                Err(ConfigError::WriteConflict) => !has_unknown_dependency(views(self.systems@))
                    && has_write_conflict(views(self.systems@)),
                Err(ConfigError::DependencyCycle) => !has_unknown_dependency(views(self.systems@))
                    && !has_write_conflict(views(self.systems@)) && !schedulable(
                    views(self.systems@),
                ),
            },
    {
        let n = self.systems.len();
        let ghost s = views(self.systems@);
        proof {
            assert(s.len() == n);
        }

        // Every runs-after name must be a registered system.
        let mut i: usize = 0;
        while i < n
            invariant
                n == self.systems@.len(),
                s == views(self.systems@),
                s.len() == n,
                i <= n,
                forall|i2: int, t: int| #![all_triggers]
                    0 <= i2 < i && 0 <= t < s[i2].after.len() ==> name_known(s, s[i2].after[t]),
            decreases n - i,
        {
            let na = self.systems[i].after.len();
            proof {
                assert(s[i as int] == self.systems@[i as int]@);
            }
            let mut t: usize = 0;
            while t < na
                invariant
                    n == self.systems@.len(),
                    s == views(self.systems@),
                    s.len() == n,
                    i < n,
                    t <= na,
                    na == s[i as int].after.len(),
                    forall|t2: int| 0 <= t2 < t ==> name_known(s, s[i as int].after[t2]),
                decreases na - t,
            {
                let mut found = false;
                let mut j: usize = 0;
                while j < n
                    invariant
                        n == self.systems@.len(),
                        s == views(self.systems@),
                        s.len() == n,
                        i < n,
                        t < na,
                        na == s[i as int].after.len(),
                        j <= n,
                        found == exists|j2: int|
                            0 <= j2 < j && s[j2].name == s[i as int].after[t as int],
                    decreases n - j,
                {
                    if self.systems[j].name == self.systems[i].after[t] {
                        found = true;
                        proof {
                            assert(s[j as int].name == s[i as int].after[t as int]);
                        }
                    }
                    j += 1;
                }
                if !found {
                    proof {
                        assert(!name_known(s, s[i as int].after[t as int])) by {
                            if name_known(s, s[i as int].after[t as int]) {
                                let j2 = choose|j2: int|
                                    0 <= j2 < s.len() && s[j2].name == s[i as int].after[t as int];
                                assert(false);
                            }
                        }
                        assert(has_unknown_dependency(s)) by {
                            assert((i as int) < s.len());
                            assert((t as int) < s[i as int].after.len());
                            assert(!name_known(s, s[i as int].after[t as int]));
                        }
                    }
                    return Err(ConfigError::UnknownDependency);
                }
                t += 1;
            }
            i += 1;
        }
        proof {
            assert(!has_unknown_dependency(s)) by {
                if has_unknown_dependency(s) {
                    let (i2, t) = choose|i2: int, t: int|
                        0 <= i2 < s.len() && 0 <= t < s[i2].after.len() && !name_known(
                            s,
                            s[i2].after[t],
                        );
                    assert(name_known(s, s[i2].after[t]));
                }
            }
        }

        // Overlapping write sets demand an ordering edge.
        i = 0;
        while i < n
            invariant
                n == self.systems@.len(),
                s == views(self.systems@),
                s.len() == n,
                i <= n,
                !has_unknown_dependency(s),
                forall|a: int, b: int| 0 <= a < i && 0 <= b < n ==> !conflict_pair(s, a, b),
            decreases n - i,
        {
            let mut j: usize = 0;
            while j < n
                invariant
                    n == self.systems@.len(),
                    s == views(self.systems@),
                    s.len() == n,
                    i < n,
                    j <= n,
                    !has_unknown_dependency(s),
                    forall|b: int| 0 <= b < j ==> !conflict_pair(s, i as int, b),
                decreases n - j,
            {
                if j != i {
                    let mut overlap = false;
                    let wa = self.systems[i].writes.len();
                    let wb = self.systems[j].writes.len();
                    let mut u: usize = 0;
                    while u < wa
                        invariant
                            n == self.systems@.len(),
                            s == views(self.systems@),
                            s.len() == n,
                            i < n,
                            j < n,
                            u <= wa,
                            wa == s[i as int].writes.len(),
                            wb == s[j as int].writes.len(),
                            overlap == exists|u2: int, v2: int|
                                0 <= u2 < u && 0 <= v2 < wb && s[i as int].writes[u2]
                                    == s[j as int].writes[v2],
                        decreases wa - u,
                    {
                        let mut v: usize = 0;
                        while v < wb
                            invariant
                                n == self.systems@.len(),
                                s == views(self.systems@),
                                s.len() == n,
                                i < n,
                                j < n,
                                u < wa,
                                v <= wb,
                                wa == s[i as int].writes.len(),
                                wb == s[j as int].writes.len(),
                                overlap == ((exists|u2: int, v2: int|
                                    0 <= u2 < u && 0 <= v2 < wb && s[i as int].writes[u2]
                                        == s[j as int].writes[v2]) || (exists|v2: int|
                                    0 <= v2 < v && s[i as int].writes[u as int]
                                        == s[j as int].writes[v2])),
                            decreases wb - v,
                        {
                            if self.systems[i].writes[u] == self.systems[j].writes[v] {
                                overlap = true;
                                proof {
                                    assert(s[i as int].writes[u as int]
                                        == s[j as int].writes[v as int]);
                                }
                            }
                            v += 1;
                        }
                        proof {
                            let iw = s[i as int].writes;
                            let jw = s[j as int].writes;
                            assert(overlap == exists|u2: int, v2: int|
                                0 <= u2 < u + 1 && 0 <= v2 < wb && iw[u2] == jw[v2]) by {
                                if overlap {
                                    if exists|u2: int, v2: int|
                                        0 <= u2 < u && 0 <= v2 < wb && iw[u2] == jw[v2] {
                                        let (u2, v2) = choose|u2: int, v2: int|
                                            0 <= u2 < u && 0 <= v2 < wb && iw[u2] == jw[v2];
                                        assert(0 <= u2 < u + 1 && 0 <= v2 < wb && iw[u2]
                                            == jw[v2]);
                                    } else {
                                        let v2 = choose|v2: int|
                                            0 <= v2 < wb && iw[u as int] == jw[v2];
                                        assert((u as int) < u + 1);
                                        assert(0 <= v2 < wb && iw[u as int] == jw[v2]);
                                    }
                                } else {
                                    if exists|u2: int, v2: int|
                                        0 <= u2 < u + 1 && 0 <= v2 < wb && iw[u2] == jw[v2] {
                                        let (u2, v2) = choose|u2: int, v2: int|
                                            0 <= u2 < u + 1 && 0 <= v2 < wb && iw[u2] == jw[v2];
                                        if u2 < u {
                                            assert(overlap);
                                        } else {
                                            assert(u2 == u as int);
                                            assert(overlap);
                                        }
                                    }
                                }
                            }
                        }
                        u += 1;
                    }
                    proof {
                        assert(overlap == writes_overlap(s[i as int], s[j as int])) by {
                            if overlap {
                                let (u2, v2) = choose|u2: int, v2: int|
                                    0 <= u2 < wa && 0 <= v2 < wb && s[i as int].writes[u2]
                                        == s[j as int].writes[v2];
                                let x = s[i as int].writes[u2];
                                assert(s[i as int].writes.contains(x));
                                assert(s[j as int].writes.contains(x));
                            }
                            if writes_overlap(s[i as int], s[j as int]) {
                                let x = choose|x: DataKind|
                                    s[i as int].writes.contains(x) && s[j as int].writes.contains(
                                        x,
                                    );
                                let u2 = choose|u2: int|
                                    0 <= u2 < s[i as int].writes.len() && s[i as int].writes[u2]
                                        == x;
                                let v2 = choose|v2: int|
                                    0 <= v2 < s[j as int].writes.len() && s[j as int].writes[v2]
                                        == x;
                                assert(0 <= u2 < wa && 0 <= v2 < wb && s[i as int].writes[u2]
                                    == s[j as int].writes[v2]);
                            }
                        }
                    }
                    if overlap {
                        let e1 = contains_name(&self.systems[i].after, &self.systems[j].name);
                        let e2 = contains_name(&self.systems[j].after, &self.systems[i].name);
                        if !e1 && !e2 {
                            proof {
                                assert(conflict_pair(s, i as int, j as int));
                                assert(has_write_conflict(s));
                            }
                            return Err(ConfigError::WriteConflict);
                        }
                    }
                }
                j += 1;
            }
            i += 1;
        }
        proof {
            assert(!has_write_conflict(s)) by {
                if has_write_conflict(s) {
                    let (a, b) = choose|a: int, b: int| conflict_pair(s, a, b);
                    assert(!conflict_pair(s, a, b));
                }
            }
        }

        // Repeatedly place the lowest-index system whose prerequisites are
        // all placed; if none exists, the graph is cyclic.
        let mut placed: Vec<bool> = Vec::new();
        let mut w: usize = 0;
        while w < n
            invariant
                placed@.len() == w,
                w <= n,
                forall|v: int| 0 <= v < w ==> !placed@[v],
                count_trues(placed@) == 0,
            decreases n - w,
        {
            let ghost before = placed@;
            placed.push(false);
            proof {
                assert(placed@.drop_last() =~= before);
            }
            w += 1;
        }
        let mut order: Vec<usize> = Vec::new();
        while order.len() < n
            invariant
                n == self.systems@.len(),
                s == views(self.systems@),
                s.len() == n,
                placed@.len() == n,
                order@.len() <= n,
                !has_unknown_dependency(s),
                !has_write_conflict(s),
                count_trues(placed@) == order@.len(),
                forall|p: int| 0 <= p < order@.len() ==> (order@[p] as int) < n,
                forall|p: int, q: int| 0 <= p < q < order@.len() ==> order@[p] != order@[q],
                forall|v: int| #![all_triggers]
                    0 <= v < n ==> (placed@[v] == order@.contains(v as usize)),
                forall|v: int, k: int|
                    0 <= v < n && placed@[v] && #[trigger] runs_after(s, v, k) ==> placed@[k],
                forall|p: int, q: int|
                    0 <= p < order@.len() && 0 <= q < order@.len() && #[trigger] runs_after(
                        s,
                        order@[p] as int,
                        order@[q] as int,
                    ) ==> q < p,
                greedy_min(s, order@),
            decreases n - order@.len(),
        {
            let pick = find_ready(&self.systems, &placed);
            if pick == n {
                proof {
                    lemma_count_le_len(placed@);
                    lemma_count_partial(placed@);
                    lemma_stuck_unschedulable(s, placed@);
                }
                return Err(ConfigError::DependencyCycle);
            }
            let ghost placed0 = placed@;
            let ghost order0 = order@;
            placed.set(pick, true);
            order.push(pick);
            proof {
                lemma_count_update_true(placed0, pick as int);
                lemma_append_keeps_invariants(s, placed0, order0, placed@, order@, pick);
            }
        }
        proof {
            lemma_count_full(placed@);
            assert forall|v: int| 0 <= v < s.len() implies order@.contains(
                #[trigger] (v as usize),
            ) by {
                assert(placed@[v]);
            }
            assert(valid_order(s, order@));
            assert(schedulable(s)) by {
                assert(valid_order(s, order@));
            }
        }
        Ok(Dispatcher { systems: self.systems, order })
    }
}

} // verus!
