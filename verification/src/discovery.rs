use vstd::prelude::*;

use crate::configs::SearchDirectory;
use crate::error::TmsError;
use crate::paths::last_component;
use crate::paths::short_name_of;

verus! {

/// What kind of repository a path turned out to be.
#[derive(Clone, Copy, Debug, PartialEq, Eq, Structural)]
pub enum RepositoryKind {
    Plain,
    Bare,
    LinkedWorktree { is_linked: bool },
    Submodule,
}

/// A repository found by direct classification is kept in the discovery
/// result only when it is a plain repository or a primary (unlinked)
/// worktree. Bare repositories, submodules and satellite worktrees are
/// skipped there; a bare repository enters the mapping only through the
/// `.bare` convention (see `retained_kind`).
pub open spec fn usable_kind(k: RepositoryKind) -> bool {
    k == RepositoryKind::Plain || k == (RepositoryKind::LinkedWorktree { is_linked: false })
}

pub fn is_usable_kind(k: &RepositoryKind) -> (r: bool)
    ensures
        r == usable_kind(*k),
{
    match k {
        RepositoryKind::Plain => true,
        RepositoryKind::LinkedWorktree { is_linked } => !*is_linked,
        RepositoryKind::Bare => false,
        RepositoryKind::Submodule => false,
    }
}

/// A kind that can appear in the result mapping at all: a usable kind, or a
/// bare repository — the latter is recorded only through the `.bare`
/// convention, never from a direct classification. Satellite worktrees and
/// submodules are never recorded.
pub open spec fn retained_kind(k: RepositoryKind) -> bool {
    usable_kind(k) || k == RepositoryKind::Bare
}

pub fn is_retained_kind(k: &RepositoryKind) -> (r: bool)
    ensures
        r == retained_kind(*k),
{
    match k {
        RepositoryKind::Plain => true,
        RepositoryKind::LinkedWorktree { is_linked } => !*is_linked,
        RepositoryKind::Bare => true,
        RepositoryKind::Submodule => false,
    }
}

/// One discovered repository: the short name it is recorded under, its kind,
/// and the path whose classification produced it.
#[derive(Debug)]
pub struct RepositoryRecord {
    pub short_name: String,
    pub kind: RepositoryKind,
    pub origin_path: String,
}

/// The mathematical content of one record: its kind and origin path.
pub open spec fn record_model(r: RepositoryRecord) -> (RepositoryKind, Seq<char>) {
    (r.kind, r.origin_path@)
}

/// The mapping a sequence of records stands for, later entries overwriting
/// earlier ones with the same short name.
pub open spec fn map_of(rs: Seq<RepositoryRecord>) -> Map<Seq<char>, (RepositoryKind, Seq<char>)>
    decreases rs.len(),
{
    if rs.len() == 0 {
        Map::empty()
    } else {
        map_of(rs.drop_last()).insert(rs.last().short_name@, record_model(rs.last()))
    }
}

/// Every entry of the mapping comes from one of the records.
pub proof fn lemma_map_of_values(rs: Seq<RepositoryRecord>, n: Seq<char>)
    requires
        map_of(rs).dom().contains(n),
    ensures
        exists|i: int|
            0 <= i < rs.len() && rs[i].short_name@ == n && map_of(rs)[n] == record_model(rs[i]),
    decreases rs.len(),
{
    if rs.len() == 0 {
        assert(false);
    } else {
        let last = rs.last();
        if n == last.short_name@ {
            assert(0 <= rs.len() - 1 < rs.len() && rs[rs.len() - 1].short_name@ == n && map_of(
                rs,
            )[n] == record_model(rs[rs.len() - 1]));
        } else {
            lemma_map_of_values(rs.drop_last(), n);
            let i = choose|i: int|
                0 <= i < rs.drop_last().len() && rs.drop_last()[i].short_name@ == n && map_of(
                    rs.drop_last(),
                )[n] == record_model(rs.drop_last()[i]);
            assert(rs.drop_last()[i] == rs[i]);
            assert(0 <= i < rs.len() && rs[i].short_name@ == n && map_of(rs)[n] == record_model(
                rs[i],
            ));
        }
    }
}

/// Overwriting the one record that carries a name is, at the level of the
/// mapping, exactly an insert of that name.
proof fn lemma_map_of_update(rs: Seq<RepositoryRecord>, i: int, r: RepositoryRecord)
    requires
        0 <= i < rs.len(),
        rs[i].short_name@ == r.short_name@,
        forall|a: int, b: int| 0 <= a < b < rs.len() ==> rs[a].short_name@ != rs[b].short_name@,
    ensures
        map_of(rs.update(i, r)) == map_of(rs).insert(r.short_name@, record_model(r)),
    decreases rs.len(),
{
    let n = r.short_name@;
    if i == rs.len() - 1 {
        assert(rs.update(i, r).drop_last() =~= rs.drop_last());
        assert(rs.update(i, r).last() == r);
        assert(map_of(rs.drop_last()).insert(n, record_model(rs.last())).insert(
            n,
            record_model(r),
        ) =~= map_of(rs.drop_last()).insert(n, record_model(r)));
    } else {
        let q = rs.drop_last();
        assert(rs.update(i, r).drop_last() =~= q.update(i, r));
        assert(rs.update(i, r).last() == rs.last());
        assert(q[i] == rs[i]);
        lemma_map_of_update(q, i, r);
        assert(rs[i].short_name@ != rs[rs.len() - 1].short_name@);
        assert(map_of(q).insert(n, record_model(r)).insert(
            rs.last().short_name@,
            record_model(rs.last()),
        ) =~= map_of(q).insert(rs.last().short_name@, record_model(rs.last())).insert(
            n,
            record_model(r),
        ));
    }
}

/// What the engine learned when it probed the path at the front of the queue.
/// The probe is performed outside the engine; the engine only decides.
pub enum ProbeOutcome {
    /// The path itself opened as a repository of the given kind.
    Repository(RepositoryKind),
    /// The path is a directory whose depth budget is exhausted; the
    /// `.bare` subdirectory convention was probed instead, with this result.
    BareRepository(Option<RepositoryKind>),
    /// The path is a directory with budget left; these are its children.
    Directory(Vec<String>),
    /// The path is a directory with budget left, but listing it was refused.
    PermissionDenied,
    /// The path is a directory with budget left, but listing it failed for
    /// some other reason.
    ReadError,
    /// The path is neither a repository nor a directory.
    NotDirectory,
}

/// A probe must agree with the depth budget of the directory it answers for.
pub open spec fn probe_consistent(probe: ProbeOutcome, depth: int) -> bool {
    match probe {
        ProbeOutcome::BareRepository(_) => depth == 0,
        ProbeOutcome::Directory(_) => depth > 0,
        ProbeOutcome::PermissionDenied => depth > 0,
        ProbeOutcome::ReadError => depth > 0,
        _ => true,
    }
}

/// How one step of the walk went: the front directory was fully processed, or
/// it was skipped because listing it was not permitted (a warning, not an
/// error).
#[derive(Clone, Copy, Debug, PartialEq, Eq, Structural)]
pub enum StepOutcome {
    Advanced,
    PermissionSkipped,
}

pub open spec fn dir_model(d: SearchDirectory) -> (Seq<char>, int) {
    (d.path@, d.depth as int)
}

pub open spec fn queue_model_of(q: Seq<SearchDirectory>) -> Seq<(Seq<char>, int)> {
    q.map_values(|d: SearchDirectory| dir_model(d))
}

/// The transition of the discovery walk, written out once: given the queue,
/// the mapping so far and the probe for the front directory, it yields the new
/// queue, the new mapping and the outcome. This is the full statement of the
/// breadth-first algorithm.
pub open spec fn step_spec(
    q: Seq<(Seq<char>, int)>,
    m: Map<Seq<char>, (RepositoryKind, Seq<char>)>,
    probe: ProbeOutcome,
) -> (Seq<(Seq<char>, int)>, Map<Seq<char>, (RepositoryKind, Seq<char>)>, Result<
    StepOutcome,
    TmsError,
>)
    recommends
        q.len() > 0,
{
    let front = q[0];
    let rest = q.skip(1);
    let name = last_component(front.0);
    match probe {
        ProbeOutcome::Repository(kind) => if usable_kind(kind) {
            (rest, m.insert(name, (kind, front.0)), Ok(StepOutcome::Advanced))
        } else {
            (rest, m, Ok(StepOutcome::Advanced))
        },
        ProbeOutcome::BareRepository(opt) => match opt {
            Option::Some(kind) => if retained_kind(kind) {
                (rest, m.insert(name, (kind, front.0 + "/.bare"@)), Ok(StepOutcome::Advanced))
            } else {
                (rest, m, Ok(StepOutcome::Advanced))
            },
            Option::None => (rest, m, Ok(StepOutcome::Advanced)),
        },
        ProbeOutcome::Directory(children) => (
            rest + children@.map_values(|c: String| (c@, front.1 - 1)),
            m,
            Ok(StepOutcome::Advanced),
        ),
        ProbeOutcome::PermissionDenied => (rest, m, Ok(StepOutcome::PermissionSkipped)),
        ProbeOutcome::ReadError => (rest, m, Err(TmsError::IoError)),
        ProbeOutcome::NotDirectory => (rest, m, Ok(StepOutcome::Advanced)),
    }
}

/// The discovery engine: a FIFO queue of directories still to visit and the
/// mapping of repositories found so far.
pub struct DiscoveryEngine {
    queue: Vec<SearchDirectory>,
    repos: Vec<RepositoryRecord>,
}

impl DiscoveryEngine {
    /// The queue, as path and remaining depth, front first.
    pub closed spec fn queue_model(self) -> Seq<(Seq<char>, int)> {
        queue_model_of(self.queue@)
    }

    /// The mapping of short name to discovered repository.
    pub closed spec fn repos_model(self) -> Map<Seq<char>, (RepositoryKind, Seq<char>)> {
        map_of(self.repos@)
    }

    /// Internal well-formedness: recorded names are unique, and only kinds
    /// that discovery may retain are ever recorded.
    pub closed spec fn inv(self) -> bool {
        &&& forall|a: int, b: int|
            0 <= a < b < self.repos@.len() ==> self.repos@[a].short_name@
                != self.repos@[b].short_name@
        &&& forall|i: int|
            0 <= i < self.repos@.len() ==> retained_kind(#[trigger] self.repos@[i].kind)
    }

    /// A fresh engine: the configured roots, in configured order, and an empty
    /// mapping.
    pub fn new(roots: Vec<SearchDirectory>) -> (e: DiscoveryEngine)
        ensures
            e.inv(),
            e.queue_model() == queue_model_of(roots@),
            e.repos_model() == Map::<Seq<char>, (RepositoryKind, Seq<char>)>::empty(),
    {
        DiscoveryEngine { queue: roots, repos: Vec::new() }
    }

    /// The directory to probe next: the front of the queue, if any is left.
    pub fn next_target(&self) -> (t: Option<SearchDirectory>)
        ensures
            match t {
                Option::Some(d) => self.queue_model().len() > 0 && dir_model(d)
                    == self.queue_model()[0],
                Option::None => self.queue_model().len() == 0,
            },
    {
        if self.queue.len() == 0 {
            None
        } else {
            let d = &self.queue[0];
            Some(SearchDirectory { path: d.path.clone(), depth: d.depth })
        }
    }

    /// Record a discovered repository, overwriting any earlier one with the
    /// same short name: the later discovery wins.
    fn insert_record(&mut self, rec: RepositoryRecord)
        requires
            old(self).inv(),
            retained_kind(rec.kind),
        ensures
            final(self).inv(),
            final(self).queue@ == old(self).queue@,
            final(self).repos_model() == old(self).repos_model().insert(
                rec.short_name@,
                record_model(rec),
            ),
    {
        let n: usize = self.repos.len();
        let mut i: usize = 0;
        while i < n
            invariant
                old(self).inv(),
                retained_kind(rec.kind),
                n == self.repos@.len(),
                i <= n,
                self.repos@ == old(self).repos@,
                self.queue@ == old(self).queue@,
                forall|j: int| 0 <= j < i ==> self.repos@[j].short_name@ != rec.short_name@,
            decreases n - i,
        {
            if self.repos[i].short_name == rec.short_name {
                proof {
                    lemma_map_of_update(old(self).repos@, i as int, rec);
                }
                self.repos[i] = rec;
                proof {
                    assert(forall|a: int, b: int|
                        0 <= a < b < self.repos@.len() ==> self.repos@[a].short_name@
                            != self.repos@[b].short_name@);
                }
                return ;
            }
            i += 1;
        }
        self.repos.push(rec);
        proof {
            assert(self.repos@.drop_last() =~= old(self).repos@);
        }
    }

    /// One step of the breadth-first walk: consume the front of the queue
    /// together with its probe, exactly as `step_spec` says.
    pub fn step(&mut self, probe: ProbeOutcome) -> (r: Result<StepOutcome, TmsError>)
        requires
            old(self).inv(),
            old(self).queue_model().len() > 0,
            probe_consistent(probe, old(self).queue_model()[0].1),
        ensures
            final(self).inv(),
            final(self).queue_model() == step_spec(
                old(self).queue_model(),
                old(self).repos_model(),
                probe,
            ).0,
            final(self).repos_model() == step_spec(
                old(self).queue_model(),
                old(self).repos_model(),
                probe,
            ).1,
            r == step_spec(old(self).queue_model(), old(self).repos_model(), probe).2,
    {
        let ghost q0 = old(self).queue_model();
        let front = self.queue.remove(0);
        proof {
            assert(old(self).queue@.remove(0) =~= old(self).queue@.skip(1));
            assert(self.queue_model() =~= q0.skip(1));
            assert(dir_model(front) == q0[0]);
        }
        let name = short_name_of(front.path.as_str());
        match probe {
            ProbeOutcome::Repository(kind) => {
                if is_usable_kind(&kind) {
                    self.insert_record(
                        RepositoryRecord { short_name: name, kind, origin_path: front.path },
                    );
                }
                Ok(StepOutcome::Advanced)
            }
            ProbeOutcome::BareRepository(opt) => {
                match opt {
                    Option::Some(kind) => {
                        if is_retained_kind(&kind) {
                            let mut origin = front.path;
                            origin.append("/.bare");
                            self.insert_record(
                                RepositoryRecord { short_name: name, kind, origin_path: origin },
                            );
                        }
                    }
                    Option::None => {}
                }
                Ok(StepOutcome::Advanced)
            }
            ProbeOutcome::Directory(children) => {
                let depth: usize = front.depth - 1;
                let ghost q1 = self.queue@;
                let mut i: usize = 0;
                while i < children.len()
                    invariant
                        i <= children@.len(),
                        depth == front.depth - 1,
                        self.repos@ == old(self).repos@,
                        self.queue@ == q1 + children@.take(i as int).map_values(
                            |c: String| (SearchDirectory { path: c, depth: depth }),
                        ),
                    decreases children@.len() - i,
                {
                    let c = children[i].clone();
                    self.queue.push(SearchDirectory::new(c, depth));
                    proof {
                        assert(children@.take(i + 1 as int) =~= children@.take(i as int).push(
                            children@[i as int],
                        ));
                        assert(children@.take(i + 1 as int).map_values(
                            |c: String| (SearchDirectory { path: c, depth: depth }),
                        ) =~= children@.take(i as int).map_values(
                            |c: String| (SearchDirectory { path: c, depth: depth }),
                        ).push((SearchDirectory { path: children@[i as int], depth: depth })));
                    }
                    i += 1;
                }
                proof {
                    assert(children@.take(children@.len() as int) =~= children@);
                    assert(self.queue_model() =~= q0.skip(1) + children@.map_values(
                        |c: String| (c@, q0[0].1 - 1),
                    ));
                }
                Ok(StepOutcome::Advanced)
            }
            ProbeOutcome::PermissionDenied => Ok(StepOutcome::PermissionSkipped),
            ProbeOutcome::ReadError => Err(TmsError::IoError),
            ProbeOutcome::NotDirectory => Ok(StepOutcome::Advanced),
        }
    }

    /// Hand the accumulated records over, once the queue is exhausted. The
    /// names are unique, every kind is one discovery may retain, and the
    /// records carry exactly the engine's mapping.
    /// A linked worktree satellite or a submodule is never recorded:
    /// whatever the walk did, every repository in the result mapping is
    /// plain, a primary worktree, or a bare repository found through the
    /// `.bare` convention.
    pub proof fn lemma_recorded_kinds_retained(self, n: Seq<char>)
        requires
            self.inv(),
            self.repos_model().dom().contains(n),
        ensures
            retained_kind(self.repos_model()[n].0),
    {
        lemma_map_of_values(self.repos@, n);
    }

    pub fn finish(self) -> (r: Vec<RepositoryRecord>)
        requires
            self.inv(),
        ensures
            map_of(r@) == self.repos_model(),
            forall|a: int, b: int|
                0 <= a < b < r@.len() ==> r@[a].short_name@ != r@[b].short_name@,
            forall|i: int| 0 <= i < r@.len() ==> retained_kind(#[trigger] r@[i].kind),
    {
        self.repos
    }
}

/// Depth discipline of the walk: expanding a directory appends its children
/// at the back of the queue, each with exactly one unit less depth; every
/// other probe, and in particular any probe of a directory whose budget is
/// exhausted, removes the front of the queue and enqueues nothing.
pub proof fn lemma_depth_discipline(
    q: Seq<(Seq<char>, int)>,
    m: Map<Seq<char>, (RepositoryKind, Seq<char>)>,
    probe: ProbeOutcome,
)
    requires
        q.len() > 0,
        probe_consistent(probe, q[0].1),
    ensures
        match probe {
            ProbeOutcome::Directory(children) => q[0].1 > 0 && step_spec(q, m, probe).0 == q.skip(
                1,
            ) + children@.map_values(|c: String| (c@, q[0].1 - 1)),
            _ => step_spec(q, m, probe).0 == q.skip(1),
        },
        q[0].1 == 0 ==> step_spec(q, m, probe).0 == q.skip(1),
{
}

/// A repository reachable only through the `.bare` convention, at exhausted
/// depth, is recorded under the parent directory's own short name — not under
/// `.bare` — with the `.bare` subdirectory as its origin. A bare repository,
/// the usual find there, is recorded like a usable one; only satellite
/// worktrees and submodules are still dropped.
pub proof fn lemma_bare_recorded_under_parent(
    q: Seq<(Seq<char>, int)>,
    m: Map<Seq<char>, (RepositoryKind, Seq<char>)>,
    k: RepositoryKind,
)
    requires
        q.len() > 0,
        q[0].1 == 0,
        retained_kind(k),
    ensures
        step_spec(q, m, ProbeOutcome::BareRepository(Some(k))).1 == m.insert(
            last_component(q[0].0),
            (k, q[0].0 + "/.bare"@),
        ),
        step_spec(
            q,
            m,
            ProbeOutcome::BareRepository(Some(RepositoryKind::Submodule)),
        ).1 == m,
        step_spec(
            q,
            m,
            ProbeOutcome::BareRepository(
                Some(RepositoryKind::LinkedWorktree { is_linked: true }),
            ),
        ).1 == m,
{
}

/// A linked worktree satellite is never inserted into the result mapping,
/// while the primary (unlinked) worktree of the same repository is.
pub proof fn lemma_satellite_never_inserted(
    q: Seq<(Seq<char>, int)>,
    m: Map<Seq<char>, (RepositoryKind, Seq<char>)>,
)
    requires
        q.len() > 0,
    ensures
        step_spec(
            q,
            m,
            ProbeOutcome::Repository(RepositoryKind::LinkedWorktree { is_linked: true }),
        ).1 == m,
        step_spec(
            q,
            m,
            ProbeOutcome::Repository(RepositoryKind::LinkedWorktree { is_linked: false }),
        ).1 == m.insert(
            last_component(q[0].0),
            (RepositoryKind::LinkedWorktree { is_linked: false }, q[0].0),
        ),
{
}

/// Two repositories with the same short name: after both have been popped and
/// classified, the mapping holds the one that stood later in the FIFO queue —
/// the later discovery wins.
pub proof fn lemma_later_discovery_wins(
    q: Seq<(Seq<char>, int)>,
    m: Map<Seq<char>, (RepositoryKind, Seq<char>)>,
    k1: RepositoryKind,
    k2: RepositoryKind,
)
    requires
        q.len() >= 2,
        usable_kind(k1),
        usable_kind(k2),
        last_component(q[0].0) == last_component(q[1].0),
    ensures
        ({
            let s1 = step_spec(q, m, ProbeOutcome::Repository(k1));
            let s2 = step_spec(s1.0, s1.1, ProbeOutcome::Repository(k2));
            s2.1[last_component(q[1].0)] == (k2, q[1].0)
        }),
{
    assert(q.skip(1)[0] == q[1]);
}

/// A whole walk, written as iterated steps: each probe answers for the front
/// of the queue in turn.
pub open spec fn run_steps(
    q: Seq<(Seq<char>, int)>,
    m: Map<Seq<char>, (RepositoryKind, Seq<char>)>,
    probes: Seq<ProbeOutcome>,
) -> (Seq<(Seq<char>, int)>, Map<Seq<char>, (RepositoryKind, Seq<char>)>)
    decreases probes.len(),
{
    if probes.len() == 0 {
        (q, m)
    } else {
        let s = step_spec(q, m, probes.first());
        run_steps(s.0, s.1, probes.drop_first())
    }
}

/// A repository nested at depth `k` below a root whose budget is at least
/// `k` is discovered: walking the chain of directories one level at a time
/// spends one unit of budget per level, and the final step classifies the
/// repository and records it under its short name. The chain holds the `k`
/// intermediate directories and then the repository itself.
pub proof fn lemma_nested_repo_is_discovered(
    chain: Seq<Seq<char>>,
    probes: Seq<ProbeOutcome>,
    k: RepositoryKind,
    m: Map<Seq<char>, (RepositoryKind, Seq<char>)>,
    d: int,
)
    requires
        chain.len() >= 1,
        d >= chain.len() - 1,
        probes.len() == chain.len(),
        usable_kind(k),
        forall|i: int|
            0 <= i < chain.len() - 1 ==> ((#[trigger] probes[i]) matches ProbeOutcome::Directory(ch)
                && ch@.map_values(|c: String| c@) == seq![chain[i + 1]]),
        probes.last() == ProbeOutcome::Repository(k),
    ensures
        ({
            let r = run_steps(seq![(chain[0], d)], m, probes);
            r.0 == Seq::<(Seq<char>, int)>::empty() && r.1 == m.insert(
                last_component(chain.last()),
                (k, chain.last()),
            )
        }),
    decreases chain.len(),
{
    let q0: Seq<(Seq<char>, int)> = seq![(chain[0], d)];
    if chain.len() == 1 {
        assert(probes.first() == ProbeOutcome::Repository(k));
        let s = step_spec(q0, m, probes.first());
        assert(q0.skip(1) =~= Seq::<(Seq<char>, int)>::empty());
        assert(s.1 == m.insert(last_component(chain[0]), (k, chain[0])));
        assert(probes.drop_first().len() == 0);
        assert(run_steps(s.0, s.1, probes.drop_first()) == (s.0, s.1));
    } else {
        assert((#[trigger] probes[0]) matches ProbeOutcome::Directory(ch)
            && ch@.map_values(|c: String| c@) == seq![chain[1]]);
        match probes.first() {
            ProbeOutcome::Directory(ch) => {
                let s = step_spec(q0, m, probes.first());
                assert(ch@.map_values(|c: String| c@) == seq![chain[1]]);
                assert(ch@.map_values(|c: String| c@).len() == ch@.len());
                assert(ch@.len() == 1);
                assert(ch@.map_values(|c: String| c@)[0] == chain[1]);
                assert(ch@[0]@ == chain[1]);
                assert(q0.skip(1) =~= Seq::<(Seq<char>, int)>::empty());
                assert(s.0 =~= seq![(chain[1], d - 1)]);
                assert(s.1 == m);
                let chain2 = chain.drop_first();
                let probes2 = probes.drop_first();
                assert forall|i: int| 0 <= i < chain2.len() - 1 implies ((#[trigger] probes2[i])
                    matches ProbeOutcome::Directory(c2) && c2@.map_values(|c: String| c@)
                    == seq![chain2[i + 1]]) by {
                    assert(probes2[i] == probes[i + 1]);
                    assert(chain2[i + 1] == chain[i + 2]);
                    assert((probes[i + 1]) matches ProbeOutcome::Directory(c2)
                        && c2@.map_values(|c: String| c@) == seq![chain[i + 2]]);
                }
                assert(probes2.last() == probes.last());
                assert(chain2[0] == chain[1]);
                lemma_nested_repo_is_discovered(chain2, probes2, k, m, d - 1);
                assert(seq![(chain2[0], d - 1)] =~= s.0);
                assert(chain2.last() == chain.last());
            }
            _ => {
                assert(false);
            }
        }
    }
}

/// The boundary instance: a repository nested at exactly depth `d` below a
/// root whose budget is exactly `d` is still discovered — the budget is spent
/// to its last unit.
pub proof fn lemma_repo_at_exact_depth_is_discovered(
    chain: Seq<Seq<char>>,
    probes: Seq<ProbeOutcome>,
    k: RepositoryKind,
    m: Map<Seq<char>, (RepositoryKind, Seq<char>)>,
)
    requires
        chain.len() >= 1,
        probes.len() == chain.len(),
        usable_kind(k),
        forall|i: int|
            0 <= i < chain.len() - 1 ==> ((#[trigger] probes[i]) matches ProbeOutcome::Directory(ch)
                && ch@.map_values(|c: String| c@) == seq![chain[i + 1]]),
        probes.last() == ProbeOutcome::Repository(k),
    ensures
        ({
            let r = run_steps(seq![(chain[0], (chain.len() - 1) as int)], m, probes);
            r.0 == Seq::<(Seq<char>, int)>::empty() && r.1 == m.insert(
                last_component(chain.last()),
                (k, chain.last()),
            )
        }),
{
    lemma_nested_repo_is_discovered(chain, probes, k, m, (chain.len() - 1) as int);
}

/// The companion bound: a repository one level deeper than the budget is not
/// discovered. Descending the same chain, the budget runs out one directory
/// short; that directory only gets its `.bare` probe, nothing more is
/// enqueued, and the mapping is left as it was.
pub proof fn lemma_repo_one_level_deeper_is_not_discovered(
    chain: Seq<Seq<char>>,
    probes: Seq<ProbeOutcome>,
    m: Map<Seq<char>, (RepositoryKind, Seq<char>)>,
)
    requires
        chain.len() >= 2,
        probes.len() == chain.len() - 1,
        forall|i: int|
            0 <= i < chain.len() - 2 ==> ((#[trigger] probes[i]) matches ProbeOutcome::Directory(ch)
                && ch@.map_values(|c: String| c@) == seq![chain[i + 1]]),
        probes.last() == ProbeOutcome::BareRepository(None),
    ensures
        ({
            let r = run_steps(seq![(chain[0], (chain.len() - 2) as int)], m, probes);
            r.0 == Seq::<(Seq<char>, int)>::empty() && r.1 == m
        }),
    decreases chain.len(),
{
    let q0: Seq<(Seq<char>, int)> = seq![(chain[0], (chain.len() - 2) as int)];
    if chain.len() == 2 {
        assert(probes.first() == ProbeOutcome::BareRepository(None));
        let s = step_spec(q0, m, probes.first());
        assert(q0.skip(1) =~= Seq::<(Seq<char>, int)>::empty());
        assert(probes.drop_first().len() == 0);
        assert(run_steps(s.0, s.1, probes.drop_first()) == (s.0, s.1));
    } else {
        assert((#[trigger] probes[0]) matches ProbeOutcome::Directory(ch)
            && ch@.map_values(|c: String| c@) == seq![chain[1]]);
        match probes.first() {
            ProbeOutcome::Directory(ch) => {
                let s = step_spec(q0, m, probes.first());
                assert(ch@.map_values(|c: String| c@) == seq![chain[1]]);
                assert(ch@.map_values(|c: String| c@).len() == ch@.len());
                assert(ch@.len() == 1);
                assert(ch@.map_values(|c: String| c@)[0] == chain[1]);
                assert(ch@[0]@ == chain[1]);
                assert(q0.skip(1) =~= Seq::<(Seq<char>, int)>::empty());
                assert(s.0 =~= seq![(chain[1], (chain.len() - 3) as int)]);
                assert(s.1 == m);
                let chain2 = chain.drop_first();
                let probes2 = probes.drop_first();
                assert forall|i: int| 0 <= i < chain2.len() - 2 implies ((#[trigger] probes2[i])
                    matches ProbeOutcome::Directory(c2) && c2@.map_values(|c: String| c@)
                    == seq![chain2[i + 1]]) by {
                    assert(probes2[i] == probes[i + 1]);
                    assert(chain2[i + 1] == chain[i + 2]);
                    assert((probes[i + 1]) matches ProbeOutcome::Directory(c2)
                        && c2@.map_values(|c: String| c@) == seq![chain[i + 2]]);
                }
                assert(probes2.last() == probes.last());
                assert(chain2[0] == chain[1]);
                lemma_repo_one_level_deeper_is_not_discovered(chain2, probes2, m);
                assert(seq![(chain2[0], (chain2.len() - 2) as int)] =~= s.0);
            }
            _ => {
                assert(false);
            }
        }
    }
}

/// Permission-denied on the front directory is local to it: the mapping and
/// the rest of the queue — the siblings still to visit — are untouched, and
/// the walk goes on rather than failing.
pub proof fn lemma_permission_denied_is_local(
    q: Seq<(Seq<char>, int)>,
    m: Map<Seq<char>, (RepositoryKind, Seq<char>)>,
)
    requires
        q.len() > 0,
        q[0].1 > 0,
    ensures
        step_spec(q, m, ProbeOutcome::PermissionDenied).0 == q.skip(1),
        step_spec(q, m, ProbeOutcome::PermissionDenied).1 == m,
        step_spec(q, m, ProbeOutcome::PermissionDenied).2 == Ok::<StepOutcome, TmsError>(
            StepOutcome::PermissionSkipped,
        ),
{
}

/// A walk splits at any point: running all the probes is running a prefix,
/// then the rest from the state the prefix reached.
pub proof fn lemma_run_steps_split(
    q: Seq<(Seq<char>, int)>,
    m: Map<Seq<char>, (RepositoryKind, Seq<char>)>,
    a: Seq<ProbeOutcome>,
    b: Seq<ProbeOutcome>,
)
    ensures
        run_steps(q, m, a + b) == run_steps(run_steps(q, m, a).0, run_steps(q, m, a).1, b),
    decreases a.len(),
{
    if a.len() == 0 {
        assert(a + b =~= b);
        assert(run_steps(q, m, a) == (q, m));
    } else {
        let s = step_spec(q, m, a.first());
        assert((a + b).first() == a.first());
        assert((a + b).drop_first() =~= a.drop_first() + b);
        lemma_run_steps_split(s.0, s.1, a.drop_first(), b);
    }
}

/// How a step changes the queue depends only on the queue and the probe,
/// never on the mapping.
proof fn lemma_step_queue_independent(
    q: Seq<(Seq<char>, int)>,
    m1: Map<Seq<char>, (RepositoryKind, Seq<char>)>,
    m2: Map<Seq<char>, (RepositoryKind, Seq<char>)>,
    probe: ProbeOutcome,
)
    ensures
        step_spec(q, m1, probe).0 == step_spec(q, m2, probe).0,
{
}

/// A walk avoids a name when no directory it processes carries that short
/// name (and it never runs past the end of the queue).
pub open spec fn run_avoids(
    q: Seq<(Seq<char>, int)>,
    probes: Seq<ProbeOutcome>,
    n: Seq<char>,
) -> bool
    decreases probes.len(),
{
    if probes.len() == 0 {
        true
    } else {
        &&& q.len() > 0
        &&& last_component(q[0].0) != n
        &&& run_avoids(
            step_spec(q, Map::<Seq<char>, (RepositoryKind, Seq<char>)>::empty(), probes.first()).0,
            probes.drop_first(),
            n,
        )
    }
}

/// Every insert the walk ever makes is keyed by the short name of the front
/// directory, so a binding survives any walk that avoids its name.
pub proof fn lemma_binding_survives(
    q: Seq<(Seq<char>, int)>,
    m: Map<Seq<char>, (RepositoryKind, Seq<char>)>,
    probes: Seq<ProbeOutcome>,
    n: Seq<char>,
)
    requires
        run_avoids(q, probes, n),
        m.dom().contains(n),
    ensures
        run_steps(q, m, probes).1.dom().contains(n),
        run_steps(q, m, probes).1[n] == m[n],
    decreases probes.len(),
{
    if probes.len() == 0 {
    } else {
        let s = step_spec(q, m, probes.first());
        assert(s.1.dom().contains(n) && s.1[n] == m[n]);
        lemma_step_queue_independent(
            q,
            m,
            Map::<Seq<char>, (RepositoryKind, Seq<char>)>::empty(),
            probes.first(),
        );
        lemma_binding_survives(s.0, s.1, probes.drop_first(), n);
    }
}

/// Two repositories with the same short name, discovered any number of steps
/// apart, in any walk: the later discovery wins. Whatever the mapping already
/// holds for the name — an earlier discovery and everything since included —
/// classifying the front directory as a usable repository overwrites that
/// binding, and the new binding survives every further step of a walk that
/// does not process the name again.
pub proof fn lemma_later_discovery_wins_general(
    q: Seq<(Seq<char>, int)>,
    m: Map<Seq<char>, (RepositoryKind, Seq<char>)>,
    probes: Seq<ProbeOutcome>,
    k: RepositoryKind,
)
    requires
        q.len() > 0,
        probes.len() >= 1,
        probes.first() == ProbeOutcome::Repository(k),
        usable_kind(k),
        run_avoids(step_spec(q, m, probes.first()).0, probes.drop_first(), last_component(q[0].0)),
    ensures
        ({
            let n = last_component(q[0].0);
            let r = run_steps(q, m, probes);
            r.1.dom().contains(n) && r.1[n] == (k, q[0].0)
        }),
{
    let n = last_component(q[0].0);
    let s = step_spec(q, m, probes.first());
    assert(s.1 == m.insert(n, (k, q[0].0)));
    lemma_binding_survives(s.0, s.1, probes.drop_first(), n);
}

} // verus!
