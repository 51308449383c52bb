use vstd::prelude::*;
use crate::assign::{
    assign_to_centroids, compatible, empty_cluster, groups_of, is_grouping, labels, no_groups,
    total_error, Cluster,
};
use crate::error::KMeansError;
use crate::matrix::{fits, is_seed, Matrix};
use crate::partition::is_partition;
use crate::random::initialize_centroids;
use crate::update::{compute_centroids_from_cluster, is_update};

verus! {

/// Where a clustering run stands.
#[derive(Debug, Clone, Copy, PartialEq, Eq, Structural)]
pub enum Phase {
    /// No centroids have been drawn yet.
    Initializing,
    /// Another iteration is due.
    Iterating,
    /// The last iteration improved the total error by one percent or less.
    Converged,
    /// The iteration cap was reached first.
    MaxIterReached,
}

/// The total error has settled: it is zero, or it fell by at most one
/// percent of its present value since the previous iteration.
pub open spec fn settled(previous: int, current: int) -> bool {
    current == 0 || 100 * (previous - current) <= current
}

/// Whether the total error has settled between two iterations.
pub fn has_settled(previous: u128, current: u128) -> (yes: bool)
    ensures
        yes == settled(previous as int, current as int),
{
    if current == 0 || previous <= current {
        true
    } else {
        previous - current <= current / 100
    }
}

/// The convergence controller: it counts iterations, remembers the total
/// error of the last one and decides when a run ends.
#[derive(Debug, Clone, Copy)]
pub struct Controller {
    pub phase: Phase,
    pub iterations: usize,
    pub max_iterations: usize,
    pub last_error: Option<u128>,
}

impl Controller {
    /// The counters agree with the phase.
    pub open spec fn wf(&self) -> bool {
        match self.phase {
            Phase::Initializing => self.iterations == 0 && self.last_error.is_none(),
            Phase::Iterating => self.iterations < self.max_iterations && (self.iterations == 0
                <==> self.last_error.is_none()),
            Phase::Converged => 2 <= self.iterations <= self.max_iterations
                && self.last_error.is_some(),
            Phase::MaxIterReached => self.iterations == self.max_iterations && (self.iterations
                == 0 <==> self.last_error.is_none()),
        }
    }

    /// The controller once the centroids have been drawn.
    pub open spec fn after_begin(self) -> Controller {
        if self.phase != Phase::Initializing {
            self
        } else if self.max_iterations == 0 {
            Controller { phase: Phase::MaxIterReached, ..self }
        } else {
            Controller { phase: Phase::Iterating, ..self }
        }
    }

    /// The controller once an iteration has ended with total error `error`.
    /// The first iteration is never the last for its error's sake; from the
    /// second on, a settled error ends the run, and so does the cap.
    pub open spec fn after_record(self, error: u128) -> Controller {
        if self.phase != Phase::Iterating {
            self
        } else {
            Controller {
                phase: if self.last_error.is_some() && settled(
                    self.last_error.unwrap() as int,
                    error as int,
                ) {
                    Phase::Converged
                } else if self.iterations + 1 >= self.max_iterations {
                    Phase::MaxIterReached
                } else {
                    Phase::Iterating
                },
                iterations: (self.iterations + 1) as usize,
                max_iterations: self.max_iterations,
                last_error: Some(error),
            }
        }
    }

    /// A controller for a run of at most `max_iterations` iterations.
    pub fn new(max_iterations: usize) -> (made: Controller)
        ensures
            made == (Controller {
                phase: Phase::Initializing,
                iterations: 0,
                max_iterations,
                last_error: None,
            }),
            made.wf(),
    {
        Controller { phase: Phase::Initializing, iterations: 0, max_iterations, last_error: None }
    }

    /// Leaves the initial phase: the centroids have been drawn. With a cap
    /// of zero the run is over at once.
    pub fn begin(&mut self)
        requires
            old(self).wf(),
        ensures
            *final(self) == old(self).after_begin(),
            final(self).wf(),
    {
        match self.phase {
            Phase::Initializing => {
                if self.max_iterations == 0 {
                    self.phase = Phase::MaxIterReached;
                } else {
                    self.phase = Phase::Iterating;
                }
            },
            _ => {},
        }
    }

    /// Takes note of an iteration that ended with total error `error`, and
    /// decides whether the run goes on. Outside the iterating phase nothing
    /// changes.
    pub fn record(&mut self, error: u128)
        requires
            old(self).wf(),
        ensures
            *final(self) == old(self).after_record(error),
            final(self).wf(),
    {
        match self.phase {
            Phase::Iterating => {
                let done = self.iterations + 1;
                let quiet = match self.last_error {
                    Some(previous) => has_settled(previous, error),
                    None => false,
                };
                if quiet {
                    self.phase = Phase::Converged;
                } else if done >= self.max_iterations {
                    self.phase = Phase::MaxIterReached;
                }
                self.iterations = done;
                self.last_error = Some(error);
            },
            _ => {},
        }
    }
}

/// What one iteration produced: the cluster assignment, its total error,
/// and the centroids recomputed from it.
pub struct Round {
    pub groups: Seq<Seq<usize>>,
    pub error: int,
    pub centroids: Seq<Seq<i32>>,
}

/// The centroids that iteration `i` started from.
pub open spec fn centroids_before(init: Seq<Seq<i32>>, rounds: Seq<Round>, i: int) -> Seq<Seq<i32>> {
    if i <= 0 {
        init
    } else {
        rounds[i - 1].centroids
    }
}

/// The groups that stand after `i` iterations.
pub open spec fn groups_after(rounds: Seq<Round>, count: nat, i: int) -> Seq<Seq<usize>> {
    if i <= 0 {
        no_groups(count)
    } else {
        rounds[i - 1].groups
    }
}

/// `round` is what an assignment step on `before`, followed by an update
/// step on its groups, produces.
pub open spec fn round_follows(
    before: Seq<Seq<i32>>,
    round: Round,
    features: Seq<Seq<i32>>,
    count: nat,
) -> bool {
    &&& is_grouping(round.groups, labels(before, features), count)
    &&& round.error == total_error(before, features)
    &&& is_update(round.centroids, round.groups, features, features[0].len())
}

/// After `i` iterations the error has settled: at least two have run, and
/// the last changed the total error by one percent or less.
pub open spec fn halts(rounds: Seq<Round>, i: int) -> bool {
    i >= 2 && settled(rounds[i - 2].error, rounds[i - 1].error)
}

/// Every iteration follows from the centroids before it.
pub open spec fn rounds_follow(
    init: Seq<Seq<i32>>,
    rounds: Seq<Round>,
    features: Seq<Seq<i32>>,
    count: nat,
) -> bool {
    forall|i: int|
        0 <= i < rounds.len() ==> round_follows(
            centroids_before(init, rounds, i),
            #[trigger] rounds[i],
            features,
            count,
        )
}

/// No iteration but the last left a settled error.
pub open spec fn never_halted(rounds: Seq<Round>) -> bool {
    forall|i: int| 1 <= i < rounds.len() ==> !#[trigger] halts(rounds, i)
}

/// `rounds` is a complete run from the centroids `init`: every iteration
/// follows from the centroids before it, no iteration but the last left a
/// settled error, and the run ended on a settled error or at the cap.
pub open spec fn is_run(
    init: Seq<Seq<i32>>,
    rounds: Seq<Round>,
    features: Seq<Seq<i32>>,
    count: nat,
    cap: nat,
) -> bool {
    &&& is_seed(init, features[0].len(), count)
    &&& rounds.len() <= cap
    &&& rounds_follow(init, rounds, features, count)
    &&& never_halted(rounds)
    &&& (halts(rounds, rounds.len() as int) || rounds.len() == cap)
}

/// The feature matrix and the cluster count admit a run: at least one row,
/// one coordinate and one cluster.
pub open spec fn clusterable(clusters: usize, features: Matrix) -> bool {
    clusters >= 1 && features.rows() >= 1 && features.cols() >= 1
}

/// A run that has not halted stays a run in progress when one more
/// iteration is appended.
proof fn lemma_append_round(
    init: Seq<Seq<i32>>,
    rounds: Seq<Round>,
    round: Round,
    features: Seq<Seq<i32>>,
    count: nat,
)
    requires
        rounds_follow(init, rounds, features, count),
        never_halted(rounds),
        !halts(rounds, rounds.len() as int),
        round_follows(centroids_before(init, rounds, rounds.len() as int), round, features, count),
    ensures
        rounds_follow(init, rounds.push(round), features, count),
        never_halted(rounds.push(round)),
        halts(rounds.push(round), rounds.len() as int + 1) == (rounds.len() >= 1 && settled(
            rounds[rounds.len() - 1].error,
            round.error,
        )),
{
    let longer = rounds.push(round);
    assert forall|i: int| 0 <= i < longer.len() implies round_follows(
        centroids_before(init, longer, i),
        #[trigger] longer[i],
        features,
        count,
    ) by {
        if i < rounds.len() {
            assert(longer[i] == rounds[i]);
            assert(centroids_before(init, longer, i) == centroids_before(init, rounds, i));
        }
    }
    assert forall|i: int| 1 <= i < longer.len() implies !#[trigger] halts(longer, i) by {
        if i < rounds.len() {
            assert(halts(longer, i) == halts(rounds, i));
        } else {
            assert(halts(longer, i) == halts(rounds, rounds.len() as int));
        }
    }
}

/// One iteration: an assignment step on `centroids`, then an update step
/// on the groups it found.
fn iterate(centroids: &Matrix, features: &Matrix, rng: &mut ndarray_rand::rand::rngs::StdRng) -> (out:
    Result<(Cluster, u128, Matrix), KMeansError>)
    requires
        compatible(*centroids, *features),
        fits(centroids.rows(), centroids.cols()),
    ensures
        out.is_ok(),
        round_follows(
            centroids@,
            Round {
                groups: groups_of(out.unwrap().0),
                error: out.unwrap().1 as int,
                centroids: out.unwrap().2@,
            },
            features@,
            centroids.cols(),
        ),
        is_partition(groups_of(out.unwrap().0), features.rows()),
        out.unwrap().2.wf(),
        out.unwrap().2.rows() == centroids.rows(),
        out.unwrap().2.cols() == centroids.cols(),
{
    let (rows, dims) = features.shape();
    let (groups, error) = match assign_to_centroids(centroids, features) {
        Ok(pair) => pair,
        Err(e) => {
            return Err(e);
        },
    };
    assert(features@[0].len() == dims);
    assert(groups@.len() == centroids.cols());
    let next = match compute_centroids_from_cluster(&groups, features, rng) {
        Ok(m) => m,
        Err(e) => {
            return Err(e);
        },
    };
    Ok((groups, error, next))
}

/// Clusters the rows of `features` into `clusters` groups: draws centroids,
/// then alternates assignment and update until the total error settles or
/// `max_iterations` iterations have run. Returns the centroids and the
/// cluster assignment of the last iteration.
pub fn run_clustering(
    clusters: usize,
    max_iterations: usize,
    features: &Matrix,
    rng: &mut ndarray_rand::rand::rngs::StdRng,
) -> (out: Result<(Matrix, Cluster), KMeansError>)
    ensures
        out == Err::<(Matrix, Cluster), KMeansError>(KMeansError::InvalidArgument) <==> !clusterable(
            clusters,
            *features,
        ),
        out == Err::<(Matrix, Cluster), KMeansError>(KMeansError::TooLarge) <==> clusterable(
            clusters,
            *features,
        ) && !fits(features.cols(), clusters as nat),
        out.is_ok() ==> out.unwrap().0.rows() == features.cols() && out.unwrap().0.cols()
            == clusters && out.unwrap().0.wf(),
        out.is_ok() ==> exists|init: Seq<Seq<i32>>, rounds: Seq<Round>|
            #![trigger is_run(init, rounds, features@, clusters as nat, max_iterations as nat)]
            {
                &&& is_run(init, rounds, features@, clusters as nat, max_iterations as nat)
                &&& out.unwrap().0@ == centroids_before(init, rounds, rounds.len() as int)
                &&& groups_of(out.unwrap().1) == groups_after(
                    rounds,
                    clusters as nat,
                    rounds.len() as int,
                )
            },
        out.is_ok() && max_iterations >= 1 ==> is_partition(
            groups_of(out.unwrap().1),
            features.rows(),
        ),
{
    let (rows, dims) = features.shape();
    if clusters == 0 || rows == 0 || dims == 0 {
        return Err(KMeansError::InvalidArgument);
    }
    let mut centroids = match initialize_centroids(dims, clusters, rng) {
        Ok(m) => m,
        Err(e) => {
            return Err(e);
        },
    };
    let mut cluster = empty_cluster(clusters);
    let mut controller = Controller::new(max_iterations);
    controller.begin();
    let ghost init = centroids@;
    let ghost mut rounds: Seq<Round> = Seq::empty();
    assert(features@[0].len() == dims);
    while controller.phase == Phase::Iterating
        invariant
            features.wf(),
            features.rows() == rows,
            features.cols() == dims,
            rows >= 1,
            dims >= 1,
            clusters >= 1,
            fits(dims as nat, clusters as nat),
            centroids.wf(),
            centroids.rows() == dims,
            centroids.cols() == clusters,
            controller.wf(),
            controller.phase != Phase::Initializing,
            controller.max_iterations == max_iterations,
            controller.iterations == rounds.len(),
            rounds.len() >= 1 ==> controller.last_error == Some(rounds[rounds.len() - 1].error as u128)
                && 0 <= rounds[rounds.len() - 1].error <= u128::MAX,
            rounds_follow(init, rounds, features@, clusters as nat),
            never_halted(rounds),
            controller.phase == Phase::Iterating ==> !halts(rounds, rounds.len() as int),
            controller.phase != Phase::Iterating ==> halts(rounds, rounds.len() as int)
                || rounds.len() == max_iterations,
            centroids@ == centroids_before(init, rounds, rounds.len() as int),
            groups_of(cluster) == groups_after(rounds, clusters as nat, rounds.len() as int),
            rounds.len() >= 1 ==> is_partition(groups_of(cluster), rows as nat),
        decreases max_iterations - controller.iterations,
    {
        let (groups, error, next) = match iterate(&centroids, features, rng) {
            Ok(triple) => triple,
            Err(e) => {
                return Err(e);
            },
        };
        proof {
            let round = Round { groups: groups_of(groups), error: error as int, centroids: next@ };
            lemma_append_round(init, rounds, round, features@, clusters as nat);
            rounds = rounds.push(round);
        }
        cluster = groups;
        centroids = next;
        controller.record(error);
    }
    assert(is_run(init, rounds, features@, clusters as nat, max_iterations as nat));
    Ok((centroids, cluster))
}

} // verus!
