//! K-means clustering: the decisions of the engine.
//!
//! The engine holds no vectors. Its caller computes distances and means and
//! reports them; the engine decides which cluster each file joins, whether the
//! assignment still changes, and when to stop.

use crate::chars::rows;
use crate::config::IntelligentConfig;
use vstd::prelude::*;

verus! {

/// Whether `c` is the least whole number whose square, doubled, reaches `n`: the
/// square root of `n / 2`, rounded up.
pub open spec fn is_root_of_half(n: nat, c: nat) -> bool {
    2 * c * c >= n && (c == 0 || 2 * (c - 1) * (c - 1) < n)
}

/// The square root of `n / 2`, rounded up.
pub open spec fn root_of_half(n: nat) -> nat {
    choose|c: nat| is_root_of_half(n, c)
}

/// The number of clusters for `n` files: the square root of `n / 2`, rounded up,
/// but at least 2, then at most `max_clusters`, then at most `n`.
pub open spec fn cluster_count(n: nat, max_clusters: nat) -> nat {
    let wanted = if root_of_half(n) < 2 {
        2
    } else {
        root_of_half(n)
    };
    let allowed = if wanted > max_clusters {
        max_clusters
    } else {
        wanted
    };
    if allowed > n {
        n
    } else {
        allowed
    }
}

proof fn lemma_square_grows(a: nat, b: nat)
    requires
        a <= b,
    ensures
        2 * a * a <= 2 * b * b,
{
    assert(a * a <= b * b) by (nonlinear_arith)
        requires
            a <= b,
    ;
    assert(2 * a * a == 2 * (a * a)) by (nonlinear_arith);
    assert(2 * b * b == 2 * (b * b)) by (nonlinear_arith);
}

/// At most one number is the rounded-up root.
pub proof fn lemma_root_of_half_unique(n: nat, a: nat, b: nat)
    requires
        is_root_of_half(n, a),
        is_root_of_half(n, b),
    ensures
        a == b,
{
    if a < b {
        lemma_square_grows(a, (b - 1) as nat);
    } else if b < a {
        lemma_square_grows(b, (a - 1) as nat);
    }
}

fn twice_square(c: usize) -> (r: u128)
    requires
        c <= 0x1_0000_0000,
    ensures
        r == 2 * c * c,
{
    assert(2 * (c as int) * (c as int) <= 0x2_0000_0000_0000_0000 && (c as int) * (c as int)
        <= 0x1_0000_0000_0000_0000) by (nonlinear_arith)
        requires
            c <= 0x1_0000_0000,
    ;
    assert(2 * (c as int) * (c as int) == 2 * ((c as int) * (c as int))) by (nonlinear_arith);
    2 * ((c as u128) * (c as u128))
}

fn ceil_root_of_half(n: usize) -> (c: usize)
    ensures
        c == root_of_half(n as nat),
        is_root_of_half(n as nat, c as nat),
{
    let mut c: usize = 0;
    while twice_square(c) < n as u128
        invariant
            c <= n,
            c <= 0x1_0000_0000,
            c == 0 || 2 * (c - 1) * (c - 1) < n,
        decreases n - c,
    {
        proof {
            if c >= n {
                lemma_square_grows(n as nat, c as nat);
                assert(2 * (n as int) * (n as int) >= n) by (nonlinear_arith)
                    requires
                        n >= 0,
                ;
            }
            if c >= 0xffff_ffff {
                assert(2 * (c as int) * (c as int) >= 0x1_0000_0000_0000_0000) by (nonlinear_arith)
                    requires
                        c >= 0xffff_ffff,
                ;
            }
        }
        c += 1;
    }
    proof {
        assert(is_root_of_half(n as nat, c as nat));
        lemma_root_of_half_unique(n as nat, c as nat, root_of_half(n as nat));
    }
    c
}

/// The number of clusters to form for `vectors` files.
pub fn determine_k(vectors: usize, config: &IntelligentConfig) -> (k: usize)
    ensures
        k == cluster_count(vectors as nat, config.max_clusters as nat),
{
    let root = ceil_root_of_half(vectors);
    let wanted: usize = if root < 2 {
        2
    } else {
        root
    };
    let allowed: usize = if wanted > config.max_clusters {
        config.max_clusters
    } else {
        wanted
    };
    if allowed > vectors {
        vectors
    } else {
        allowed
    }
}

/// Whether `r` is the centroid that a file with these distance keys joins: the
/// first one whose key is smallest, provided that key is below `u64::MAX`, and
/// centroid 0 where no key is.
pub open spec fn is_nearest(keys: Seq<u64>, r: int) -> bool {
    if exists|j: int| 0 <= j < keys.len() && keys[j] < u64::MAX {
        &&& 0 <= r < keys.len()
        &&& keys[r] < u64::MAX
        &&& forall|j: int| 0 <= j < keys.len() ==> keys[r] <= keys[j]
        &&& forall|j: int| 0 <= j < r ==> keys[r] < keys[j]
    } else {
        r == 0
    }
}

/// The centroid that a file with these distance keys joins.
pub open spec fn nearest(keys: Seq<u64>) -> int {
    choose|r: int| is_nearest(keys, r)
}

/// Only one centroid is the nearest.
pub proof fn lemma_nearest_unique(keys: Seq<u64>, a: int, b: int)
    requires
        is_nearest(keys, a),
        is_nearest(keys, b),
    ensures
        a == b,
{
}

/// Every list of keys has its nearest centroid.
pub proof fn lemma_nearest_exists(keys: Seq<u64>) -> (r: int)
    ensures
        is_nearest(keys, r),
        r == nearest(keys),
        keys.len() > 0 ==> 0 <= r < keys.len(),
        keys.len() == 0 ==> r == 0,
    decreases keys.len(),
{
    let r = if keys.len() == 0 {
        0
    } else {
        let before = keys.drop_last();
        let last = keys.len() - 1;
        let r0 = lemma_nearest_exists(before);
        assert forall|j: int| 0 <= j < before.len() implies before[j] == keys[j] by {}
        if exists|j: int| 0 <= j < before.len() && before[j] < u64::MAX {
            let j0 = choose|j: int| 0 <= j < before.len() && before[j] < u64::MAX;
            assert(keys[j0] < u64::MAX);
            if keys[last] < before[r0] {
                assert forall|j: int| 0 <= j < keys.len() implies keys[last] <= keys[j] by {
                    if j < last {
                        assert(before[r0] <= before[j]);
                    }
                }
                assert forall|j: int| 0 <= j < last implies keys[last] < keys[j] by {
                    assert(before[r0] <= before[j]);
                }
                last
            } else {
                assert forall|j: int| 0 <= j < keys.len() implies keys[r0] <= keys[j] by {
                    if j < last {
                        assert(before[r0] <= before[j]);
                    }
                }
                assert forall|j: int| 0 <= j < r0 implies keys[r0] < keys[j] by {
                    assert(before[r0] < before[j]);
                }
                r0
            }
        } else {
            assert forall|j: int| 0 <= j < last implies keys[j] == u64::MAX by {
                assert(before[j] == keys[j]);
            }
            if keys[last] < u64::MAX {
                last
            } else {
                0
            }
        }
    };
    assert(is_nearest(keys, r));
    lemma_nearest_unique(keys, r, nearest(keys));
    r
}

/// The centroid that a file joins, given the key of its distance to each
/// centroid. A key is a whole number that orders as the distance does;
/// `u64::MAX` stands for a distance that is no number or is not below the
/// largest finite one, and never wins. Among equal keys the first wins.
pub fn nearest_centroid(keys: &Vec<u64>) -> (r: usize)
    ensures
        r == nearest(keys@),
        is_nearest(keys@, r as int),
        keys.len() > 0 ==> r < keys.len(),
{
    let mut best: usize = 0;
    let mut least: u64 = u64::MAX;
    let mut j: usize = 0;
    while j < keys.len()
        invariant
            j <= keys.len(),
            least == u64::MAX ==> best == 0 && forall|i: int| 0 <= i < j ==> keys@[i] == u64::MAX,
            least < u64::MAX ==> best < j && keys@[best as int] == least,
            forall|i: int| 0 <= i < j ==> least <= keys@[i],
            forall|i: int| 0 <= i < best ==> least < keys@[i],
        decreases keys.len() - j,
    {
        if keys[j] < least {
            least = keys[j];
            best = j;
        }
        j += 1;
    }
    proof {
        assert(is_nearest(keys@, best as int));
        lemma_nearest_unique(keys@, best as int, nearest(keys@));
    }
    best
}

/// Where the engine stands.
#[derive(Debug, Clone, Copy, PartialEq, Eq, Structural)]
pub enum Phase {
    /// No centroid has been chosen yet.
    Uninitialized,
    /// The engine waits for the distances of every file to every centroid.
    Assigning,
    /// The assignment changed; the engine waits for the centroids to be recomputed.
    Updating,
    /// An assignment pass changed nothing: a fixed point.
    Converged,
    /// The rounds are used up, or there is nothing to cluster.
    Exhausted,
}

/// What the caller has to do before the next event.
#[derive(Debug, Clone, Copy, PartialEq, Eq, Structural)]
pub enum Action {
    /// Take the first vectors, one per cluster, as the centroids; then report
    /// `Event::Initialized`.
    Initialize,
    /// Compute the key of the distance of every file to every centroid; then
    /// report `Event::Distances`.
    Assign,
    /// Replace each centroid by the mean of the vectors assigned to it, and
    /// keep a centroid that has none; then report `Event::Updated`.
    Update,
    /// Read the assignment: the engine has finished.
    Stop,
}

/// What the caller reports.
#[derive(Debug, Clone)]
pub enum Event {
    /// The centroids are the first vectors.
    Initialized,
    /// One row per file, in it one distance key per centroid. A key orders as the
    /// distance does; `u64::MAX` stands for a distance that is no number or is
    /// not below the largest finite one.
    Distances(Vec<Vec<u64>>),
    /// The centroids are recomputed.
    Updated,
}

/// The mathematical value of an `Event`.
pub enum EventModel {
    Initialized,
    Distances(Seq<Seq<u64>>),
    Updated,
}

impl View for Event {
    type V = EventModel;

    open spec fn view(&self) -> EventModel {
        match self {
            Event::Initialized => EventModel::Initialized,
            Event::Distances(d) => EventModel::Distances(rows(d@)),
            Event::Updated => EventModel::Updated,
        }
    }
}

/// The mathematical value of the engine.
pub struct EngineState {
    /// The number of files.
    pub points: nat,
    /// The number of clusters, which is also the number of centroids.
    pub clusters: nat,
    /// The cluster of each file; empty where there is no cluster.
    pub assignments: Seq<usize>,
    /// The rounds that may still begin.
    pub remaining: nat,
    pub phase: Phase,
}

/// The state before anything has happened: every file in cluster 0.
pub open spec fn initial_state(points: nat, clusters: nat, max_iterations: nat) -> EngineState {
    let clusters = if clusters > points {
        points
    } else {
        clusters
    };
    EngineState {
        points,
        clusters,
        assignments: if clusters == 0 {
            Seq::empty()
        } else {
            Seq::new(points, |i: int| 0usize)
        },
        remaining: max_iterations,
        phase: Phase::Uninitialized,
    }
}

/// Whether the distances have one row per file and one key per centroid.
pub open spec fn fits(s: EngineState, distances: Seq<Seq<u64>>) -> bool {
    &&& distances.len() == s.points
    &&& forall|i: int| 0 <= i < distances.len() ==> (#[trigger] distances[i]).len() == s.clusters
}

/// The cluster that each file joins, given its distances.
pub open spec fn assignment_pass(distances: Seq<Seq<u64>>) -> Seq<usize> {
    Seq::new(distances.len(), |i: int| nearest(distances[i]) as usize)
}

/// What the caller has to do in a phase.
pub open spec fn pending(phase: Phase) -> Action {
    match phase {
        Phase::Uninitialized => Action::Initialize,
        Phase::Assigning => Action::Assign,
        Phase::Updating => Action::Update,
        Phase::Converged => Action::Stop,
        Phase::Exhausted => Action::Stop,
    }
}

/// The phase in which a round begins, if one may.
pub open spec fn round_start(s: EngineState, remaining: nat) -> Phase {
    if remaining > 0 && s.clusters > 0 {
        Phase::Assigning
    } else {
        Phase::Exhausted
    }
}

/// The state after an event. An event that does not answer the pending action,
/// or distances that do not fit, leave the state as it is.
pub open spec fn next_state(s: EngineState, event: EventModel) -> EngineState {
    match (s.phase, event) {
        (Phase::Uninitialized, EventModel::Initialized) => EngineState {
            phase: round_start(s, s.remaining),
            ..s
        },
        (Phase::Assigning, EventModel::Distances(d)) => if !fits(s, d) {
            s
        } else if assignment_pass(d) == s.assignments {
            EngineState { phase: Phase::Converged, ..s }
        } else {
            EngineState { assignments: assignment_pass(d), phase: Phase::Updating, ..s }
        },
        (Phase::Updating, EventModel::Updated) => EngineState {
            remaining: (s.remaining - 1) as nat,
            phase: round_start(s, (s.remaining - 1) as nat),
            ..s
        },
        _ => s,
    }
}

/// What holds of every state that the engine reaches.
pub open spec fn valid_state(s: EngineState) -> bool {
    &&& s.clusters <= s.points <= usize::MAX
    &&& s.assignments.len() == (if s.clusters == 0 {
        0
    } else {
        s.points
    })
    &&& forall|i: int| 0 <= i < s.assignments.len() ==> (#[trigger] s.assignments[i]) < s.clusters
    &&& (s.phase == Phase::Assigning || s.phase == Phase::Updating) ==> s.remaining > 0 && s.clusters
        > 0
}

/// The engine: the assignment of files to clusters, and the rounds left.
#[derive(Debug)]
pub struct KMeans {
    points: usize,
    clusters: usize,
    assignments: Vec<usize>,
    remaining: usize,
    phase: Phase,
}

impl View for KMeans {
    type V = EngineState;

    closed spec fn view(&self) -> EngineState {
        EngineState {
            points: self.points as nat,
            clusters: self.clusters as nat,
            assignments: self.assignments@,
            remaining: self.remaining as nat,
            phase: self.phase,
        }
    }
}

impl KMeans {
    #[verifier::type_invariant]
    spec fn well_formed(&self) -> bool {
        valid_state(self@)
    }

    /// An engine for `points` files and at most `clusters` clusters, which may
    /// run `max_iterations` rounds.
    pub fn new(points: usize, clusters: usize, max_iterations: usize) -> (engine: KMeans)
        ensures
            engine@ == initial_state(points as nat, clusters as nat, max_iterations as nat),
    {
        let clusters: usize = if clusters > points {
            points
        } else {
            clusters
        };
        let mut assignments: Vec<usize> = Vec::new();
        if clusters > 0 {
            let mut i: usize = 0;
            while i < points
                invariant
                    i <= points,
                    assignments@ == Seq::new(i as nat, |j: int| 0usize),
                decreases points - i,
            {
                assignments.push(0);
                assert(assignments@ =~= Seq::new((i + 1) as nat, |j: int| 0usize));
                i += 1;
            }
        }
        assert(assignments@ =~= initial_state(
            points as nat,
            clusters as nat,
            max_iterations as nat,
        ).assignments);
        assert(forall|i: int| 0 <= i < assignments@.len() ==> (#[trigger] assignments@[i]) == 0);
        KMeans { points, clusters, assignments, remaining: max_iterations, phase: Phase::Uninitialized }
    }

    /// Where the engine stands.
    pub fn phase(&self) -> (p: Phase)
        ensures
            p == self@.phase,
    {
        self.phase
    }

    /// The number of clusters.
    pub fn clusters(&self) -> (k: usize)
        ensures
            k == self@.clusters,
    {
        self.clusters
    }

    /// The number of files.
    pub fn points(&self) -> (n: usize)
        ensures
            n == self@.points,
    {
        self.points
    }

    /// The cluster of each file. Every state that an engine reaches is valid.
    pub fn assignments(&self) -> (a: &Vec<usize>)
        ensures
            a@ == self@.assignments,
            valid_state(self@),
    {
        proof {
            use_type_invariant(self);
        }
        &self.assignments
    }

    /// What the caller has to do next.
    pub fn pending(&self) -> (action: Action)
        ensures
            action == pending(self@.phase),
    {
        action_of(self.phase)
    }

    /// Takes an event and says what the caller has to do next.
    pub fn step(&mut self, event: Event) -> (action: Action)
        ensures
            final(self)@ == next_state(old(self)@, event@),
            action == pending(final(self)@.phase),
    {
        proof {
            use_type_invariant(&*self);
        }
        match event {
            Event::Initialized => {
                if self.phase == Phase::Uninitialized {
                    self.phase = start_of_round(self.remaining, self.clusters);
                }
            },
            Event::Distances(distances) => {
                if self.phase == Phase::Assigning && rows_fit(
                    &distances,
                    self.points,
                    self.clusters,
                ) {
                    let assigned = assign_all(&distances, self.clusters);
                    if same_assignment(&assigned, &self.assignments) {
                        self.phase = Phase::Converged;
                    } else {
                        self.assignments = assigned;
                        self.phase = Phase::Updating;
                    }
                }
            },
            Event::Updated => {
                if self.phase == Phase::Updating {
                    self.phase = start_of_round(self.remaining - 1, self.clusters);
                    self.remaining = self.remaining - 1;
                }
            },
        }
        action_of(self.phase)
    }
}

/// An engine for `files` files under `config`: with as many clusters as
/// `determine_k` gives, and the rounds that `config` allows.
pub fn start_clustering(files: usize, config: &IntelligentConfig) -> (engine: KMeans)
    ensures
        engine@ == initial_state(
            files as nat,
            cluster_count(files as nat, config.max_clusters as nat),
            config.max_iterations as nat,
        ),
{
    KMeans::new(files, determine_k(files, config), config.max_iterations)
}

fn action_of(phase: Phase) -> (action: Action)
    ensures
        action == pending(phase),
{
    match phase {
        Phase::Uninitialized => Action::Initialize,
        Phase::Assigning => Action::Assign,
        Phase::Updating => Action::Update,
        Phase::Converged => Action::Stop,
        Phase::Exhausted => Action::Stop,
    }
}

fn start_of_round(remaining: usize, clusters: usize) -> (phase: Phase)
    ensures
        phase == (if remaining > 0 && clusters > 0 {
            Phase::Assigning
        } else {
            Phase::Exhausted
        }),
{
    if remaining > 0 && clusters > 0 {
        Phase::Assigning
    } else {
        Phase::Exhausted
    }
}

fn rows_fit(distances: &Vec<Vec<u64>>, points: usize, clusters: usize) -> (r: bool)
    ensures
        r == (rows(distances@).len() == points && forall|i: int|
            0 <= i < rows(distances@).len() ==> (#[trigger] rows(distances@)[i]).len()
                == clusters),
{
    if distances.len() != points {
        return false;
    }
    let mut i: usize = 0;
    while i < distances.len()
        invariant
            i <= distances.len(),
            forall|j: int| 0 <= j < i ==> (#[trigger] rows(distances@)[j]).len() == clusters,
        decreases distances.len() - i,
    {
        assert(rows(distances@)[i as int] == distances@[i as int]@);
        if distances[i].len() != clusters {
            return false;
        }
        i += 1;
    }
    true
}

fn assign_all(distances: &Vec<Vec<u64>>, clusters: usize) -> (assigned: Vec<usize>)
    requires
        clusters > 0,
        forall|i: int|
            0 <= i < rows(distances@).len() ==> (#[trigger] rows(distances@)[i]).len()
                == clusters,
    ensures
        assigned@ == assignment_pass(rows(distances@)),
        forall|i: int| 0 <= i < assigned@.len() ==> (#[trigger] assigned@[i]) < clusters,
{
    let mut assigned: Vec<usize> = Vec::new();
    let mut i: usize = 0;
    while i < distances.len()
        invariant
            i <= distances.len(),
            clusters > 0,
            forall|j: int|
                0 <= j < rows(distances@).len() ==> (#[trigger] rows(distances@)[j]).len()
                    == clusters,
            assigned@.len() == i,
            forall|j: int|
                0 <= j < i ==> (#[trigger] assigned@[j]) == nearest(rows(distances@)[j])
                    && assigned@[j] < clusters,
        decreases distances.len() - i,
    {
        assert(rows(distances@)[i as int] == distances@[i as int]@);
        let c = nearest_centroid(&distances[i]);
        assigned.push(c);
        i += 1;
    }
    assert(assigned@ =~= assignment_pass(rows(distances@)));
    assigned
}

fn same_assignment(a: &Vec<usize>, b: &Vec<usize>) -> (r: bool)
    ensures
        r == (a@ == b@),
{
    if a.len() != b.len() {
        return false;
    }
    let mut i: usize = 0;
    while i < a.len()
        invariant
            i <= a.len(),
            a.len() == b.len(),
            forall|j: int| 0 <= j < i ==> a@[j] == b@[j],
        decreases a.len() - i,
    {
        if a[i] != b[i] {
            return false;
        }
        i += 1;
    }
    assert(a@ =~= b@);
    true
}

/// The state of an engine after a list of events, taken one by one.
pub open spec fn state_after(s: EngineState, events: Seq<EventModel>) -> EngineState
    decreases events.len(),
{
    if events.len() == 0 {
        s
    } else {
        next_state(state_after(s, events.drop_last()), events.last())
    }
}

/// An event leads from a valid state to a valid state.
pub proof fn lemma_next_state_is_valid(s: EngineState, event: EventModel)
    requires
        valid_state(s),
    ensures
        valid_state(next_state(s, event)),
{
    match (s.phase, event) {
        (Phase::Assigning, EventModel::Distances(d)) => {
            if fits(s, d) {
                let a = assignment_pass(d);
                assert forall|i: int| 0 <= i < a.len() implies (#[trigger] a[i]) < s.clusters by {
                    lemma_nearest_exists(d[i]);
                }
            }
        },
        _ => {},
    }
}

/// Every state that an engine reaches is valid: each file is in one cluster,
/// and that cluster exists.
pub proof fn lemma_reached_states_are_valid(
    points: nat,
    clusters: nat,
    max_iterations: nat,
    events: Seq<EventModel>,
)
    requires
        points <= usize::MAX,
    ensures
        valid_state(state_after(initial_state(points, clusters, max_iterations), events)),
        state_after(initial_state(points, clusters, max_iterations), events).points == points,
    decreases events.len(),
{
    if events.len() > 0 {
        lemma_reached_states_are_valid(points, clusters, max_iterations, events.drop_last());
        lemma_next_state_is_valid(
            state_after(initial_state(points, clusters, max_iterations), events.drop_last()),
            events.last(),
        );
    }
}

/// At convergence one more assignment pass changes nothing: where the engine
/// reports a fixed point on some distances, every file already is in the
/// cluster that these distances give it, and the same distances, reported to
/// the engine once more while it assigns, lead to the same state again.
pub proof fn lemma_assignment_is_idempotent_at_convergence(s: EngineState, distances: Seq<Seq<u64>>)
    requires
        s.phase == Phase::Assigning,
        fits(s, distances),
        next_state(s, EventModel::Distances(distances)).phase == Phase::Converged,
    ensures
        ({
            let converged = next_state(s, EventModel::Distances(distances));
            &&& converged.assignments == assignment_pass(distances)
            &&& converged.assignments == s.assignments
            &&& next_state(
                EngineState { phase: Phase::Assigning, ..converged },
                EventModel::Distances(distances),
            ) == converged
        }),
{
}

/// After an assignment pass every file is in the cluster that the distances
/// give it, whatever cluster it was in before: the assignment depends on the
/// distances alone.
pub proof fn lemma_assignment_follows_distances(s: EngineState, distances: Seq<Seq<u64>>)
    requires
        s.phase == Phase::Assigning,
        fits(s, distances),
    ensures
        next_state(s, EventModel::Distances(distances)).assignments == assignment_pass(distances),
{
}

/// The numbers of the first `n` files.
pub open spec fn everyone(n: nat) -> Seq<usize> {
    Seq::new(n, |i: int| i as usize)
}

/// Whether a file is in cluster `c`.
pub open spec fn in_cluster(assignments: Seq<usize>, c: int) -> spec_fn(usize) -> bool {
    |i: usize| assignments[i as int] == c
}

/// Whether a group has at least `min` files.
pub open spec fn at_least(min: nat) -> spec_fn(Seq<usize>) -> bool {
    |g: Seq<usize>| g.len() >= min
}

/// The files of cluster `c`, in the order of the files.
pub open spec fn members(assignments: Seq<usize>, c: int) -> Seq<usize> {
    everyone(assignments.len()).filter(in_cluster(assignments, c))
}

/// One group of files per cluster, in the order of the clusters.
pub open spec fn grouped(s: EngineState) -> Seq<Seq<usize>> {
    Seq::new(s.clusters, |c: int| members(s.assignments, c))
}

/// The clusters that are kept: none where there is no file, all files in one
/// where no cluster may be formed, and else each cluster with at least `min`
/// files; the others are dropped with their files.
pub open spec fn clusters_of(s: EngineState, min: nat) -> Seq<Seq<usize>> {
    if s.points == 0 {
        Seq::empty()
    } else if s.clusters == 0 {
        seq![everyone(s.points)]
    } else {
        grouped(s).filter(at_least(min))
    }
}

fn everyone_exec(n: usize) -> (all: Vec<usize>)
    ensures
        all@ == everyone(n as nat),
{
    let mut all: Vec<usize> = Vec::new();
    let mut i: usize = 0;
    while i < n
        invariant
            i <= n,
            all@ == everyone(i as nat),
        decreases n - i,
    {
        all.push(i);
        assert(all@ =~= everyone((i + 1) as nat));
        i += 1;
    }
    all
}

fn members_exec(assignments: &Vec<usize>, c: usize) -> (group: Vec<usize>)
    ensures
        group@ == members(assignments@, c as int),
{
    let ghost pred = in_cluster(assignments@, c as int);
    let mut group: Vec<usize> = Vec::new();
    let mut i: usize = 0;
    assert(everyone(0).filter(pred) == Seq::<usize>::empty()) by {
        reveal(Seq::filter);
    }
    while i < assignments.len()
        invariant
            i <= assignments.len(),
            pred == in_cluster(assignments@, c as int),
            group@ == everyone(i as nat).filter(pred),
        decreases assignments.len() - i,
    {
        proof {
            assert(everyone((i + 1) as nat) =~= everyone(i as nat).push(i));
            everyone(i as nat).lemma_filter_push(i, pred);
        }
        if assignments[i] == c {
            group.push(i);
        }
        i += 1;
    }
    group
}

/// Groups the files by cluster once the engine has stopped, and keeps the
/// clusters with at least `min_cluster_size` files. No smaller cluster is
/// among them, unless no cluster may be formed at all, and no file is there
/// twice.
pub fn perform_clustering(engine: &KMeans, min_cluster_size: usize) -> (kept: Vec<Vec<usize>>)
    ensures
        rows(kept@) == clusters_of(engine@, min_cluster_size as nat),
        clusters_are_sound(rows(kept@), engine@, min_cluster_size as nat),
        valid_state(engine@),
{
    let assignments = engine.assignments();
    proof {
        lemma_kept_clusters(engine@, min_cluster_size as nat);
    }
    let mut kept: Vec<Vec<usize>> = Vec::new();
    if engine.points() == 0 {
        assert(rows(kept@) =~= Seq::<Seq<usize>>::empty());
        return kept;
    }
    if engine.clusters() == 0 {
        kept.push(everyone_exec(engine.points()));
        assert(rows(kept@) =~= seq![everyone(engine@.points)]);
        return kept;
    }
    let clusters = engine.clusters();
    let ghost groups = grouped(engine@);
    let ghost large = at_least(min_cluster_size as nat);
    let mut c: usize = 0;
    assert(groups.take(0).filter(large) == Seq::<Seq<usize>>::empty()) by {
        reveal(Seq::filter);
    }
    assert(rows(kept@) =~= Seq::<Seq<usize>>::empty());
    while c < clusters
        invariant
            c <= clusters,
            clusters == engine@.clusters,
            assignments@ == engine@.assignments,
            groups == grouped(engine@),
            large == at_least(min_cluster_size as nat),
            rows(kept@) == groups.take(c as int).filter(large),
        decreases clusters - c,
    {
        let group = members_exec(assignments, c);
        proof {
            assert(groups.take(c + 1) =~= groups.take(c as int).push(groups[c as int]));
            groups.take(c as int).lemma_filter_push(groups[c as int], large);
        }
        if group.len() >= min_cluster_size {
            let ghost before = rows(kept@);
            kept.push(group);
            assert(rows(kept@) =~= before.push(group@));
        }
        c += 1;
    }
    assert(groups.take(clusters as int) == groups);
    kept
}

/// Where each element of a filtered sequence stood before: the positions rise.
proof fn lemma_filter_positions<A>(s: Seq<A>, pred: spec_fn(A) -> bool) -> (at: Seq<int>)
    ensures
        at.len() == s.filter(pred).len(),
        forall|j: int|
            0 <= j < at.len() ==> 0 <= #[trigger] at[j] < s.len() && s.filter(pred)[j] == s[at[j]]
                && pred(s[at[j]]),
        forall|j: int, k: int| 0 <= j < k < at.len() ==> at[j] < at[k],
    decreases s.len(),
{
    reveal(Seq::filter);
    if s.len() == 0 {
        Seq::empty()
    } else {
        let before = lemma_filter_positions(s.drop_last(), pred);
        if pred(s.last()) {
            before.push(s.len() - 1)
        } else {
            before
        }
    }
}

/// Whether small clusters are absent from `kept` and `kept` holds files of the
/// input, none of them twice: where at least one cluster may be formed, every
/// group has at least `min` files; in every case each member is the number of
/// a file, and no file stands at two places.
pub open spec fn clusters_are_sound(kept: Seq<Seq<usize>>, s: EngineState, min: nat) -> bool {
    &&& s.clusters > 0 ==> forall|g: int| 0 <= g < kept.len() ==> (#[trigger] kept[g]).len() >= min
    &&& forall|g: int, j: int|
        0 <= g < kept.len() && 0 <= j < kept[g].len() ==> (#[trigger] kept[g][j]) < s.points
    &&& forall|g: int, j: int, h: int, k: int|
        0 <= g < kept.len() && 0 <= j < kept[g].len() && 0 <= h < kept.len() && 0 <= k
            < kept[h].len() && (g != h || j != k) ==> (#[trigger] kept[g][j])
            != (#[trigger] kept[h][k])
}

/// Small clusters never appear among the clusters that are kept, and these
/// hold files of the input, none of them twice.
pub proof fn lemma_kept_clusters(s: EngineState, min: nat)
    requires
        valid_state(s),
    ensures
        clusters_are_sound(clusters_of(s, min), s, min),
{
    let kept = clusters_of(s, min);
    if s.points == 0 {
    } else if s.clusters == 0 {
    } else {
        let large = at_least(min);
        let groups = grouped(s);
        let cluster_at = lemma_filter_positions(groups, large);
        assert forall|g: int, j: int, h: int, k: int|
            0 <= g < kept.len() && 0 <= j < kept[g].len() && 0 <= h < kept.len() && 0 <= k
                < kept[h].len() && (g != h || j != k) implies (#[trigger] kept[g][j])
            != (#[trigger] kept[h][k]) && kept[g][j] < s.points by {
            let c = cluster_at[g];
            let d = cluster_at[h];
            let in_c = in_cluster(s.assignments, c);
            let in_d = in_cluster(s.assignments, d);
            let file_at = lemma_filter_positions(everyone(s.assignments.len()), in_c);
            let file_bt = lemma_filter_positions(everyone(s.assignments.len()), in_d);
            assert(kept[g] == members(s.assignments, c));
            assert(kept[h] == members(s.assignments, d));
            assert(kept[g][j] == file_at[j]);
            assert(kept[h][k] == file_bt[k]);
            if g == h {
                assert(file_at[j] != file_at[k]);
            } else {
                assert(c != d);
            }
        }
        assert forall|g: int, j: int| 0 <= g < kept.len() && 0 <= j < kept[g].len() implies (
        #[trigger] kept[g][j]) < s.points by {
            let c = cluster_at[g];
            let in_c = in_cluster(s.assignments, c);
            let file_at = lemma_filter_positions(everyone(s.assignments.len()), in_c);
            assert(kept[g] == members(s.assignments, c));
            assert(kept[g][j] == file_at[j]);
        }
    }
}

} // verus!
