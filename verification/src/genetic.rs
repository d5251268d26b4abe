//! Individuals, the tasks that rate them, and the population that a search
//! grows one mutant at a time.

use crate::bitspace::{
    binary_cardinality, bits_of, bits_value, lemma_bits_not_full, lemma_bits_of_len,
    lemma_bits_of_value, lemma_null_bits_value,
};
use crate::digital::{get_null_bitvector, increment_bitvector, power};
use crate::text::{push_signed_decimal, signed_decimal};
use vstd::arithmetic::power::lemma_pow_positive;
use vstd::pervasive::cloned;
use vstd::prelude::*;

verus! {

/// A boolean vector function that can compete in a population.
pub trait Individual: Clone {
    /// The representation is consistent.
    spec fn wf(&self) -> bool;

    /// The number of input bits.
    spec fn spec_input_size(&self) -> nat;

    /// The number of output bits.
    spec fn spec_output_size(&self) -> nat;

    /// The function that the individual computes.
    spec fn spec_calculate_output(&self, input: Seq<bool>) -> Seq<bool>;

    /// The individual supports mutation.
    spec fn can_mutate(&self) -> bool;

    /// `self` is what one mutation can make of `parent`.
    spec fn mutation_of(&self, parent: &Self) -> bool;

    /// The text that describes the individual.
    spec fn spec_print(&self) -> Seq<char>;

    /// Evaluates the function on an input of the individual's input size.
    fn calculate_output(&self, input: &Vec<bool>) -> (output: Vec<bool>)
        requires
            self.wf(),
            input@.len() == self.spec_input_size(),
        ensures
            output@ == self.spec_calculate_output(input@),
            output@.len() == self.spec_output_size(),
    ;

    /// Changes the individual by one mutation, drawn at random. Its sizes
    /// stay, and it can mutate again.
    fn mutate(&mut self)
        requires
            old(self).wf(),
            old(self).can_mutate(),
        ensures
            final(self).wf(),
            final(self).can_mutate(),
            final(self).spec_input_size() == old(self).spec_input_size(),
            final(self).spec_output_size() == old(self).spec_output_size(),
            final(self).mutation_of(old(self)),
    ;

    /// The text that describes the individual, for a reader.
    fn print(&self) -> (text: String)
        requires
            self.wf(),
        ensures
            text@ == self.spec_print(),
    ;

    /// The number of input bits.
    fn input_size(&self) -> (size: usize)
        requires
            self.wf(),
        ensures
            size == self.spec_input_size(),
    ;

    /// The number of output bits.
    fn output_size(&self) -> (size: usize)
        requires
            self.wf(),
        ensures
            size == self.spec_output_size(),
    ;

    /// The output of a consistent individual has the length that it declares.
    proof fn lemma_output_size(&self, input: Seq<bool>)
        requires
            self.wf(),
            input.len() == self.spec_input_size(),
        ensures
            self.spec_calculate_output(input).len() == self.spec_output_size(),
    ;

    /// A clone stands for the same individual: it is consistent, has the same
    /// sizes and the same mutants.
    proof fn lemma_clone(&self, copy: &Self)
        requires
            self.wf(),
            cloned::<Self>(*self, *copy),
        ensures
            copy.wf(),
            copy.spec_input_size() == self.spec_input_size(),
            copy.spec_output_size() == self.spec_output_size(),
            copy.can_mutate() == self.can_mutate(),
            forall|input: Seq<bool>| #[trigger]
                copy.spec_calculate_output(input) == self.spec_calculate_output(input),
            forall|child: Self| #[trigger] child.mutation_of(copy) == child.mutation_of(self),
    ;
}

/// The function that an individual computes, as a value.
pub open spec fn function_of<I: Individual>(individual: I) -> spec_fn(Seq<bool>) -> Seq<bool> {
    |input: Seq<bool>| individual.spec_calculate_output(input)
}

/// `child` is what `steps` mutations in a row can make of `ancestor`.
pub open spec fn mutated_from<I: Individual>(child: I, ancestor: I, steps: nat) -> bool
    decreases steps,
{
    if steps == 0 {
        child == ancestor
    } else {
        exists|parent: I| #[trigger]
            child.mutation_of(&parent) && mutated_from(parent, ancestor, (steps - 1) as nat)
    }
}

/// One more mutation extends a chain of mutations by one step.
pub proof fn lemma_mutated_step<I: Individual>(child: I, parent: I, ancestor: I, steps: nat)
    requires
        mutated_from(parent, ancestor, steps),
        child.mutation_of(&parent),
    ensures
        mutated_from(child, ancestor, steps + 1),
{
    assert(child.mutation_of(&parent) && mutated_from(
        parent,
        ancestor,
        ((steps + 1) - 1) as nat,
    ));
}

/// A rating of the individuals of one kind.
pub trait Task<I: Individual> {
    /// The task is consistent and its scores fit in an `i32`.
    spec fn wf(&self) -> bool;

    /// The number of input bits of the individuals that the task rates.
    spec fn spec_input_size(&self) -> nat;

    /// The number of output bits of the individuals that the task rates.
    spec fn spec_output_size(&self) -> nat;

    /// The score of an individual.
    spec fn spec_calculate_fitness(&self, individual: &I) -> int;

    /// The highest score that the task gives.
    spec fn spec_max_fitness(&self) -> int;

    /// Rates an individual of the task's sizes.
    fn calculate_fitness(&self, individual: &I) -> (fitness: i32)
        requires
            self.wf(),
            individual.wf(),
            individual.spec_input_size() == self.spec_input_size(),
            individual.spec_output_size() == self.spec_output_size(),
        ensures
            fitness == self.spec_calculate_fitness(individual),
            fitness <= self.spec_max_fitness(),
    ;

    /// The highest score that the task gives.
    fn max_fitness(&self) -> (fitness: i32)
        requires
            self.wf(),
        ensures
            fitness == self.spec_max_fitness(),
    ;

    /// No individual scores more than the highest score.
    proof fn lemma_fitness_bound(&self, individual: &I)
        requires
            self.wf(),
            individual.wf(),
            individual.spec_input_size() == self.spec_input_size(),
            individual.spec_output_size() == self.spec_output_size(),
        ensures
            self.spec_calculate_fitness(individual) <= self.spec_max_fitness(),
    ;
}

/// The number of positions at which two bit vectors of one length agree.
pub open spec fn agreement(a: Seq<bool>, b: Seq<bool>) -> nat
    decreases a.len(),
{
    if a.len() == 0 {
        0
    } else {
        agreement(a.drop_last(), b.drop_last()) + if a.last() == b.last() {
            1nat
        } else {
            0nat
        }
    }
}

/// Two vectors agree at no more positions than they have.
pub proof fn lemma_agreement_bound(a: Seq<bool>, b: Seq<bool>)
    ensures
        agreement(a, b) <= a.len(),
    decreases a.len(),
{
    if a.len() > 0 {
        lemma_agreement_bound(a.drop_last(), b.drop_last());
    }
}

/// Equal vectors agree at every position.
pub proof fn lemma_agreement_total(a: Seq<bool>)
    ensures
        agreement(a, a) == a.len(),
    decreases a.len(),
{
    if a.len() > 0 {
        lemma_agreement_total(a.drop_last());
    }
}

/// The number of positions at which two outputs agree.
pub fn calculate_fitness_result(result: &Vec<bool>, v_tested: &Vec<bool>) -> (fitness: i32)
    requires
        result@.len() == v_tested@.len(),
        result@.len() <= i32::MAX,
    ensures
        fitness == agreement(result@, v_tested@),
{
    let mut fitness: i32 = 0;
    let mut i: usize = 0;
    while i < result.len()
        invariant
            i <= result@.len(),
            result@.len() == v_tested@.len(),
            result@.len() <= i32::MAX,
            fitness == agreement(result@.take(i as int), v_tested@.take(i as int)),
            fitness <= i,
        decreases result@.len() - i,
    {
        proof {
            let a = result@.take(i + 1);
            let b = v_tested@.take(i + 1);
            assert(a.drop_last() =~= result@.take(i as int));
            assert(b.drop_last() =~= v_tested@.take(i as int));
        }
        if result[i] == v_tested[i] {
            fitness += 1;
        }
        i += 1;
    }
    proof {
        assert(result@.take(i as int) =~= result@);
        assert(v_tested@.take(i as int) =~= v_tested@);
    }
    fitness
}

/// The agreement of a candidate with a reference, summed over the first
/// `points` points of the input space in the order of the binary counter.
pub open spec fn imitation_score(
    reference: spec_fn(Seq<bool>) -> Seq<bool>,
    candidate: spec_fn(Seq<bool>) -> Seq<bool>,
    in_size: nat,
    points: nat,
) -> nat
    decreases points,
{
    if points == 0 {
        0
    } else {
        let input = bits_of((points - 1) as nat, in_size);
        imitation_score(reference, candidate, in_size, (points - 1) as nat) + agreement(
            reference(input),
            candidate(input),
        )
    }
}

/// The task of imitating another individual, of whatever kind, on every point
/// of its input space.
#[derive(Debug)]
pub struct ImitationTask<I: Individual> {
    indi: I,
}

impl<I: Individual> ImitationTask<I> {
    /// The individual to imitate.
    pub closed spec fn reference(&self) -> I {
        self.indi
    }

    /// The task of imitating `indi`.
    pub fn new(indi: I) -> (task: ImitationTask<I>)
        ensures
            task.reference() == indi,
    {
        ImitationTask { indi }
    }
}

impl<I: Individual> Clone for ImitationTask<I> {
    fn clone(&self) -> (copy: ImitationTask<I>)
        ensures
            cloned::<I>(self.reference(), copy.reference()),
    {
        ImitationTask { indi: self.indi.clone() }
    }
}

impl<I: Individual> ImitationTask<I> {
    /// The task can rate: the individual to imitate is consistent, the size
    /// of its input space fits in a `usize` and the highest score in an `i32`.
    pub open spec fn can_rate(&self) -> bool {
        &&& self.reference().wf()
        &&& binary_cardinality(self.reference().spec_input_size()) <= usize::MAX
        &&& self.spec_max_score() <= i32::MAX
    }

    /// The task can rate, and the size of the input space fits in an `i32`
    /// too.
    pub open spec fn ready(&self) -> bool {
        &&& self.can_rate()
        &&& binary_cardinality(self.reference().spec_input_size()) <= i32::MAX
    }

    /// The score of a candidate: its agreement with the individual to imitate,
    /// summed over the whole input space.
    pub open spec fn spec_score<J: Individual>(&self, individual: &J) -> int {
        imitation_score(
            function_of(self.reference()),
            function_of(*individual),
            self.reference().spec_input_size(),
            binary_cardinality(self.reference().spec_input_size()) as nat,
        ) as int
    }

    /// Agreement on every output bit at every point of the input space.
    pub open spec fn spec_max_score(&self) -> int {
        self.reference().spec_output_size() * binary_cardinality(
            self.reference().spec_input_size(),
        )
    }

    /// Rates a candidate of whatever kind against the individual to imitate.
    pub fn calculate_fitness<J: Individual>(&self, individual: &J) -> (fitness: i32)
        requires
            self.can_rate(),
            individual.wf(),
            individual.spec_input_size() == self.reference().spec_input_size(),
            individual.spec_output_size() == self.reference().spec_output_size(),
        ensures
            fitness == self.spec_score(individual),
            0 <= fitness <= self.spec_max_score(),
    {
        let in_size = self.indi.input_size();
        let out_size = self.indi.output_size();
        let mut fitness: i32 = 0;
        let mut input = get_null_bitvector(in_size);
        let input_space_cardinality = power(2, in_size);
        proof {
            lemma_null_bits_value(in_size as nat);
            lemma_pow_positive(2, in_size as nat);
        }
        let mut j: usize = 0;
        while j < input_space_cardinality
            invariant
                self.can_rate(),
                individual.wf(),
                individual.spec_input_size() == self.reference().spec_input_size(),
                individual.spec_output_size() == self.reference().spec_output_size(),
                in_size == self.reference().spec_input_size(),
                out_size == self.reference().spec_output_size(),
                input_space_cardinality == binary_cardinality(in_size as nat),
                j <= input_space_cardinality,
                input@.len() == in_size,
                j < input_space_cardinality ==> bits_value(input@) == j,
                fitness == imitation_score(
                    function_of(self.reference()),
                    function_of(*individual),
                    in_size as nat,
                    j as nat,
                ),
                0 <= fitness <= out_size * j,
            decreases input_space_cardinality - j,
        {
            let output_self = self.indi.calculate_output(&input);
            let output_other = individual.calculate_output(&input);
            proof {
                lemma_bits_of_value(input@);
                lemma_agreement_bound(output_self@, output_other@);
                assert(out_size * j + out_size == out_size * (j + 1)) by (nonlinear_arith);
                assert(out_size * (j + 1) <= out_size * input_space_cardinality)
                    by (nonlinear_arith)
                    requires
                        j + 1 <= input_space_cardinality,
                ;
                assert(out_size * 1 <= out_size * input_space_cardinality) by (nonlinear_arith)
                    requires
                        1 <= input_space_cardinality,
                ;
            }
            fitness += calculate_fitness_result(&output_self, &output_other);
            if j < input_space_cardinality - 1 {
                proof {
                    lemma_bits_not_full(input@);
                }
                increment_bitvector(&mut input);
            }
            j += 1;
        }
        fitness
    }

    /// The highest score that the task gives.
    pub fn max_fitness(&self) -> (fitness: i32)
        requires
            self.ready(),
        ensures
            fitness == self.spec_max_score(),
    {
        let in_size = self.indi.input_size();
        let out_size = self.indi.output_size();
        let input_space_cardinality = power(2, in_size);
        (out_size * input_space_cardinality) as i32
    }
}

/// The agreement of a candidate with a reference over the first `points`
/// points of the input space is at most the number of output bits for each
/// point.
pub proof fn lemma_imitation_score_bound<I: Individual, J: Individual>(
    reference: I,
    candidate: J,
    points: nat,
)
    requires
        reference.wf(),
    ensures
        imitation_score(
            function_of(reference),
            function_of(candidate),
            reference.spec_input_size(),
            points,
        ) <= reference.spec_output_size() * points,
    decreases points,
{
    if points > 0 {
        let before = (points - 1) as nat;
        lemma_imitation_score_bound(reference, candidate, before);
        let input = bits_of(before, reference.spec_input_size());
        lemma_bits_of_len(before, reference.spec_input_size());
        reference.lemma_output_size(input);
        lemma_agreement_bound(
            reference.spec_calculate_output(input),
            candidate.spec_calculate_output(input),
        );
        assert(reference.spec_output_size() * before + reference.spec_output_size()
            == reference.spec_output_size() * points) by (nonlinear_arith)
            requires
                before + 1 == points,
        ;
        assert(function_of(reference)(input) == reference.spec_calculate_output(input));
        assert(function_of(candidate)(input) == candidate.spec_calculate_output(input));
    } else {
        assert(reference.spec_output_size() * points == 0) by (nonlinear_arith)
            requires
                points == 0,
        ;
    }
}

/// Where a candidate agrees with the reference on the first `points` points
/// of the input space, its agreement sums to the number of output bits for
/// each point.
pub proof fn lemma_imitation_score_total<I: Individual, J: Individual>(
    reference: I,
    candidate: J,
    points: nat,
)
    requires
        reference.wf(),
        forall|input: Seq<bool>|
            input.len() == reference.spec_input_size() ==> #[trigger] candidate.spec_calculate_output(
                input,
            ) == reference.spec_calculate_output(input),
    ensures
        imitation_score(
            function_of(reference),
            function_of(candidate),
            reference.spec_input_size(),
            points,
        ) == reference.spec_output_size() * points,
    decreases points,
{
    if points > 0 {
        let before = (points - 1) as nat;
        lemma_imitation_score_total(reference, candidate, before);
        let input = bits_of(before, reference.spec_input_size());
        lemma_bits_of_len(before, reference.spec_input_size());
        reference.lemma_output_size(input);
        lemma_agreement_total(reference.spec_calculate_output(input));
        assert(candidate.spec_calculate_output(input) == reference.spec_calculate_output(input));
        assert(reference.spec_output_size() * before + reference.spec_output_size()
            == reference.spec_output_size() * points) by (nonlinear_arith)
            requires
                before + 1 == points,
        ;
        assert(function_of(reference)(input) == reference.spec_calculate_output(input));
        assert(function_of(candidate)(input) == candidate.spec_calculate_output(input));
    } else {
        assert(reference.spec_output_size() * points == 0) by (nonlinear_arith)
            requires
                points == 0,
        ;
    }
}

/// A candidate that computes the function of the individual to imitate, on
/// every input of the task's size, scores the task's highest score.
pub proof fn lemma_perfect_imitation_scores_max<I: Individual, J: Individual>(
    task: ImitationTask<I>,
    candidate: J,
)
    requires
        task.reference().wf(),
        forall|input: Seq<bool>|
            input.len() == task.reference().spec_input_size()
                ==> #[trigger] candidate.spec_calculate_output(input)
                == task.reference().spec_calculate_output(input),
    ensures
        task.spec_score(&candidate) == task.spec_max_score(),
{
    let n = task.reference().spec_input_size();
    lemma_pow_positive(2, n);
    lemma_imitation_score_total(task.reference(), candidate, binary_cardinality(n) as nat);
}

impl<I: Individual, J: Individual> Task<J> for ImitationTask<I> {
    open spec fn wf(&self) -> bool {
        self.ready()
    }

    open spec fn spec_input_size(&self) -> nat {
        self.reference().spec_input_size()
    }

    open spec fn spec_output_size(&self) -> nat {
        self.reference().spec_output_size()
    }

    open spec fn spec_calculate_fitness(&self, individual: &J) -> int {
        self.spec_score(individual)
    }

    open spec fn spec_max_fitness(&self) -> int {
        self.spec_max_score()
    }

    fn calculate_fitness(&self, individual: &J) -> (fitness: i32) {
        ImitationTask::calculate_fitness(self, individual)
    }

    fn max_fitness(&self) -> (fitness: i32) {
        ImitationTask::max_fitness(self)
    }

    proof fn lemma_fitness_bound(&self, individual: &J) {
        let n = self.reference().spec_input_size();
        lemma_pow_positive(2, n);
        lemma_imitation_score_bound(self.reference(), *individual, binary_cardinality(n) as nat);
    }
}

/// An individual with the score that the population's task gave it.
struct RatedIndividual<I: Individual> {
    indi: I,
    fitness: i32,
}

/// The line that describes one rated individual: its score.
pub open spec fn rated_line(fitness: int) -> Seq<char> {
    ("Fitness "@ + signed_decimal(fitness) + ", individual:"@).push('\n')
}

/// The lines that describe the first `upto` entries of a ranking.
pub open spec fn rated_lines<I>(rated: Seq<(I, int)>, upto: nat) -> Seq<char>
    decreases upto,
{
    if upto == 0 {
        Seq::<char>::empty()
    } else {
        rated_lines(rated, (upto - 1) as nat) + rated_line(rated[upto - 1].1)
    }
}

impl<I: Individual> RatedIndividual<I> {
    /// Appends the line that describes the rated individual.
    fn print(&self, text: &mut String)
        ensures
            final(text)@ == old(text)@ + rated_line(self.fitness as int),
    {
        proof {
            reveal_strlit("Fitness ");
            reveal_strlit(", individual:");
        }
        text.push_str("Fitness ");
        push_signed_decimal(text, self.fitness);
        text.push_str(", individual:");
        text.push('\n');
        assert(text@ =~= old(text)@ + rated_line(self.fitness as int));
    }
}

/// The number of leading entries of a ranking whose score is at least
/// `fitness`: the place at which a newcomer with that score enters.
pub open spec fn rank<I>(rated: Seq<(I, int)>, fitness: int) -> int
    decreases rated.len(),
{
    if rated.len() == 0 || rated[0].1 < fitness {
        0
    } else {
        1 + rank(rated.drop_first(), fitness)
    }
}

/// The ranking with one more entry: the newcomer stands behind every entry
/// whose score is at least its own, and ahead of the others.
pub open spec fn ranked_insert<I>(rated: Seq<(I, int)>, indi: I, fitness: int) -> Seq<(I, int)> {
    rated.insert(rank(rated, fitness), (indi, fitness))
}

/// A ranking is in descending order of score.
pub open spec fn descending<I>(rated: Seq<(I, int)>) -> bool {
    forall|i: int, j: int| 0 <= i <= j < rated.len() ==> rated[i].1 >= rated[j].1
}

/// The place found by walking a ranking from its head while the scores are at
/// least `fitness` is the newcomer's rank.
pub proof fn lemma_rank_is<I>(rated: Seq<(I, int)>, fitness: int, place: int)
    requires
        0 <= place <= rated.len(),
        forall|k: int| 0 <= k < place ==> rated[k].1 >= fitness,
        place < rated.len() ==> rated[place].1 < fitness,
    ensures
        rank(rated, fitness) == place,
    decreases place,
{
    if place > 0 {
        let rest = rated.drop_first();
        assert forall|k: int| 0 <= k < place - 1 implies rest[k].1 >= fitness by {
            assert(rest[k] == rated[k + 1]);
        }
        lemma_rank_is(rest, fitness, place - 1);
    }
}

/// A newcomer's rank lies within the ranking; the entries ahead of it score at
/// least as much, and in a descending ranking those behind it score less.
pub proof fn lemma_rank_bounds<I>(rated: Seq<(I, int)>, fitness: int)
    ensures
        0 <= rank(rated, fitness) <= rated.len(),
        forall|k: int| 0 <= k < rank(rated, fitness) ==> rated[k].1 >= fitness,
        descending(rated) ==> forall|k: int|
            rank(rated, fitness) <= k < rated.len() ==> rated[k].1 < fitness,
    decreases rated.len(),
{
    if rated.len() > 0 && rated[0].1 >= fitness {
        let rest = rated.drop_first();
        lemma_rank_bounds(rest, fitness);
        assert forall|k: int| 0 <= k < rank(rated, fitness) implies rated[k].1 >= fitness by {
            if k > 0 {
                assert(rest[k - 1] == rated[k]);
            }
        }
        if descending(rated) {
            assert forall|i: int, j: int| 0 <= i <= j < rest.len() implies rest[i].1
                >= rest[j].1 by {
                assert(rest[i] == rated[i + 1] && rest[j] == rated[j + 1]);
            }
            assert forall|k: int| rank(rated, fitness) <= k < rated.len() implies rated[k].1
                < fitness by {
                assert(rest[k - 1] == rated[k]);
            }
        }
    }
}

/// Ranking a newcomer keeps a descending ranking descending and never lowers
/// the score at its head.
pub proof fn lemma_ranked_insert_descending<I>(rated: Seq<(I, int)>, indi: I, fitness: int)
    requires
        descending(rated),
    ensures
        descending(ranked_insert(rated, indi, fitness)),
        ranked_insert(rated, indi, fitness).len() == rated.len() + 1,
        rated.len() > 0 ==> ranked_insert(rated, indi, fitness)[0].1 >= rated[0].1,
        rated.len() > 0 ==> ranked_insert(rated, indi, fitness)[0] == rated[0] || ranked_insert(
            rated,
            indi,
            fitness,
        )[0] == (indi, fitness),
{
    lemma_rank_bounds(rated, fitness);
    let place = rank(rated, fitness);
    let after = ranked_insert(rated, indi, fitness);
    assert forall|i: int, j: int| 0 <= i <= j < after.len() implies after[i].1 >= after[j].1 by {
        if i < place {
            assert(after[i] == rated[i]);
        } else if i > place {
            assert(after[i] == rated[i - 1]);
        }
        if j < place {
            assert(after[j] == rated[j]);
        } else if j > place {
            assert(after[j] == rated[j - 1]);
        }
    }
}

/// The ranking after every staged individual, in the order of staging, was
/// rated and ranked.
pub open spec fn ranked_all<I: Individual, T: Task<I>>(
    task: T,
    rated: Seq<(I, int)>,
    staged: Seq<I>,
) -> Seq<(I, int)>
    decreases staged.len(),
{
    if staged.len() == 0 {
        rated
    } else {
        ranked_all(
            task,
            ranked_insert(rated, staged[0], task.spec_calculate_fitness(&staged[0])),
            staged.drop_first(),
        )
    }
}

/// An entry of a ranking was in `rated` already or is one of the `staged`
/// with the score that the task gives it.
pub open spec fn came_from<I: Individual, T: Task<I>>(
    task: T,
    rated: Seq<(I, int)>,
    staged: Seq<I>,
    entry: (I, int),
) -> bool {
    rated.contains(entry) || exists|k: int|
        0 <= k < staged.len() && entry == (#[trigger] staged[k], task.spec_calculate_fitness(&staged[k]))
}

/// Rating and ranking the staged individuals adds one entry for each and
/// none else, and leaves a descending ranking descending.
pub proof fn lemma_ranked_all<I: Individual, T: Task<I>>(
    task: T,
    rated: Seq<(I, int)>,
    staged: Seq<I>,
)
    ensures
        ranked_all(task, rated, staged).len() == rated.len() + staged.len(),
        forall|i: int|
            0 <= i < ranked_all(task, rated, staged).len() ==> came_from(
                task,
                rated,
                staged,
                #[trigger] ranked_all(task, rated, staged)[i],
            ),
        descending(rated) ==> descending(ranked_all(task, rated, staged)),
    decreases staged.len(),
{
    let all = ranked_all(task, rated, staged);
    if staged.len() == 0 {
        assert forall|i: int| 0 <= i < all.len() implies came_from(
            task,
            rated,
            staged,
            #[trigger] all[i],
        ) by {
            assert(rated[i] == all[i]);
        }
    } else {
        let fitness = task.spec_calculate_fitness(&staged[0]);
        let mid = ranked_insert(rated, staged[0], fitness);
        let rest = staged.drop_first();
        let place = rank(rated, fitness);
        lemma_rank_bounds(rated, fitness);
        lemma_ranked_all(task, mid, rest);
        if descending(rated) {
            lemma_ranked_insert_descending(rated, staged[0], fitness);
        }
        assert forall|i: int| 0 <= i < all.len() implies came_from(
            task,
            rated,
            staged,
            #[trigger] all[i],
        ) by {
            assert(came_from(task, mid, rest, all[i]));
            if mid.contains(all[i]) {
                let at = choose|at: int| 0 <= at < mid.len() && mid[at] == all[i];
                if at < place {
                    assert(rated[at] == all[i]);
                } else if at == place {
                    assert(all[i] == (staged[0], task.spec_calculate_fitness(&staged[0])));
                } else {
                    assert(rated[at - 1] == all[i]);
                }
            } else {
                let k = choose|k: int|
                    0 <= k < rest.len() && all[i] == (
                        #[trigger] rest[k],
                        task.spec_calculate_fitness(&rest[k]),
                    );
                assert(staged[k + 1] == rest[k]);
            }
        }
    }
}

/// The task can rate the individual: it is consistent and has the task's
/// sizes.
pub open spec fn ratable<I: Individual, T: Task<I>>(task: T, indi: I) -> bool {
    &&& indi.wf()
    &&& indi.spec_input_size() == task.spec_input_size()
    &&& indi.spec_output_size() == task.spec_output_size()
}

/// Every entry of a ranking can be rated by the task and carries the score
/// that the task gives it.
pub open spec fn truly_rated<I: Individual, T: Task<I>>(task: T, rated: Seq<(I, int)>) -> bool {
    forall|i: int|
        0 <= i < rated.len() ==> ratable(task, (#[trigger] rated[i]).0) && rated[i].1
            == task.spec_calculate_fitness(&rated[i].0)
}

/// `after` is `before` with one mutant of its best individual rated and
/// ranked.
pub open spec fn is_next_generation<I: Individual, T: Task<I>>(
    task: T,
    before: Seq<(I, int)>,
    after: Seq<(I, int)>,
) -> bool {
    before.len() > 0 && exists|mutant: I|
        #![trigger mutant.mutation_of(&before[0].0)]
        mutant.mutation_of(&before[0].0) && ratable(task, mutant) && after == ranked_insert(
            before,
            mutant,
            task.spec_calculate_fitness(&mutant),
        )
}

/// The search goes on: the best score is below the task's highest and the
/// ranking is shorter than the budget of generations.
pub open spec fn searching<I: Individual, T: Task<I>>(
    task: T,
    max_generation: nat,
    rated: Seq<(I, int)>,
) -> bool {
    rated.len() > 0 && rated[0].1 < task.spec_max_fitness() && rated.len() < max_generation
}

/// `after` is what `steps` generations in a row make of `before`, each taken
/// while the search went on.
pub open spec fn learned<I: Individual, T: Task<I>>(
    task: T,
    max_generation: nat,
    before: Seq<(I, int)>,
    after: Seq<(I, int)>,
    steps: nat,
) -> bool
    decreases steps,
{
    if steps == 0 {
        after == before
    } else {
        exists|mid: Seq<(I, int)>|
            #![trigger is_next_generation(task, mid, after)]
            is_next_generation(task, mid, after) && searching(task, max_generation, mid)
                && learned(task, max_generation, before, mid, (steps - 1) as nat)
    }
}

/// A population groups individuals and keeps them in descending order of
/// their fitness for a task.
pub struct Population<I: Individual, T: Task<I>> {
    pub task: T,
    pop: Vec<RatedIndividual<I>>,
    unrated_pop: Vec<I>,
}

impl<I: Individual, T: Task<I>> Population<I, T> {
    /// The ranking: each rated individual with its score, best first.
    pub closed spec fn rated(&self) -> Seq<(I, int)> {
        Seq::new(self.pop@.len(), |i: int| (self.pop@[i].indi, self.pop@[i].fitness as int))
    }

    /// The task that rates the individuals.
    pub closed spec fn spec_task(&self) -> T {
        self.task
    }

    /// The individuals that wait to be rated, in the order of staging.
    pub closed spec fn staged(&self) -> Seq<I> {
        self.unrated_pop@
    }

    /// The task is consistent, and the ranking is descending and carries the
    /// task's scores.
    pub open spec fn wf(&self) -> bool {
        &&& self.spec_task().wf()
        &&& descending(self.rated())
        &&& truly_rated(self.spec_task(), self.rated())
    }

    /// Every staged individual can be rated by the task.
    pub open spec fn staged_ratable(&self) -> bool {
        forall|i: int| 0 <= i < self.staged().len() ==> ratable(self.spec_task(), #[trigger] self.staged()[i])
    }

    /// An empty population for the task.
    pub fn new(task: T, capacity: usize) -> (population: Population<I, T>)
        ensures
            population.spec_task() == task,
            population.rated() == Seq::<(I, int)>::empty(),
            population.staged() == Seq::<I>::empty(),
    {
        let pop: Vec<RatedIndividual<I>> = Vec::with_capacity(capacity);
        let unrated_pop: Vec<I> = Vec::with_capacity(capacity);
        let population = Population { task, pop, unrated_pop };
        assert(population.rated() =~= Seq::<(I, int)>::empty());
        population
    }

    /// The number of rated individuals.
    pub fn len(&self) -> (len: usize)
        ensures
            len == self.rated().len(),
    {
        self.pop.len()
    }

    /// The score of the best individual. The population must have one.
    pub fn best_fitness(&self) -> (fitness: i32)
        requires
            self.rated().len() > 0,
        ensures
            fitness == self.rated()[0].1,
            self.wf() ==> fitness <= self.spec_task().spec_max_fitness(),
    {
        proof {
            if self.wf() {
                self.spec_task().lemma_fitness_bound(&self.rated()[0].0);
            }
        }
        self.pop[0].fitness
    }

    /// The best individual. The population must have one.
    pub fn best(&self) -> (indi: &I)
        requires
            self.rated().len() > 0,
        ensures
            *indi == self.rated()[0].0,
    {
        &self.pop[0].indi
    }

    fn add_rated_individual(&mut self, indi: RatedIndividual<I>)
        requires
            descending(old(self).rated()),
        ensures
            final(self).spec_task() == old(self).spec_task(),
            final(self).staged() == old(self).staged(),
            final(self).rated() == ranked_insert(
                old(self).rated(),
                indi.indi,
                indi.fitness as int,
            ),
    {
        let fitness = indi.fitness;
        let mut place: usize = self.pop.len();
        while place > 0 && self.pop[place - 1].fitness < fitness
            invariant
                *self == *old(self),
                place <= self.pop@.len(),
                forall|k: int| place <= k < self.pop@.len() ==> self.rated()[k].1 < fitness,
            decreases place,
        {
            place -= 1;
        }
        proof {
            assert forall|k: int| 0 <= k < place implies self.rated()[k].1 >= fitness by {
                assert(self.rated()[k].1 >= self.rated()[place - 1].1);
            }
            lemma_rank_is(self.rated(), fitness as int, place as int);
        }
        self.pop.insert(place, indi);
        assert(self.rated() =~= ranked_insert(old(self).rated(), indi.indi, indi.fitness as int));
    }

    /// Stages an individual to be rated later.
    pub fn add_unrated_individual(&mut self, indi: I)
        ensures
            final(self).spec_task() == old(self).spec_task(),
            final(self).rated() == old(self).rated(),
            final(self).staged() == old(self).staged().push(indi),
    {
        self.unrated_pop.push(indi);
        assert(self.rated() =~= old(self).rated());
    }

    /// Rates an individual and ranks it: behind every individual that scores
    /// at least as much, ahead of the others.
    pub fn add_and_rate_individual(&mut self, indi: I)
        requires
            old(self).wf(),
            ratable(old(self).spec_task(), indi),
        ensures
            final(self).wf(),
            final(self).spec_task() == old(self).spec_task(),
            final(self).staged() == old(self).staged(),
            final(self).rated() == ranked_insert(
                old(self).rated(),
                indi,
                old(self).spec_task().spec_calculate_fitness(&indi),
            ),
    {
        let fitness = self.task.calculate_fitness(&indi);
        proof {
            lemma_ranked_insert_descending(self.rated(), indi, fitness as int);
            lemma_rank_bounds(self.rated(), fitness as int);
        }
        self.add_rated_individual(RatedIndividual { indi, fitness });
    }

    /// One generation: a clone of the best individual is mutated, rated and
    /// ranked. The best score never falls.
    pub fn next_generation(&mut self)
        requires
            old(self).wf(),
            old(self).rated().len() > 0,
            old(self).rated()[0].0.can_mutate(),
        ensures
            final(self).wf(),
            final(self).spec_task() == old(self).spec_task(),
            final(self).staged() == old(self).staged(),
            is_next_generation(old(self).spec_task(), old(self).rated(), final(self).rated()),
            final(self).rated().len() == old(self).rated().len() + 1,
            final(self).rated()[0].1 >= old(self).rated()[0].1,
            final(self).rated()[0].0.can_mutate(),
    {
        let mut mutant = self.best().clone();
        let ghost best = self.rated()[0].0;
        proof {
            best.lemma_clone(&mutant);
        }
        mutant.mutate();
        proof {
            let fitness = self.spec_task().spec_calculate_fitness(&mutant);
            lemma_ranked_insert_descending(self.rated(), mutant, fitness);
        }
        self.add_and_rate_individual(mutant);
    }

    /// Whether the search goes on: the best score is below the task's highest
    /// and the population holds fewer than `max_generation` individuals.
    pub fn keeps_learning(&self, max_generation: usize) -> (goes_on: bool)
        requires
            self.wf(),
            self.rated().len() > 0,
        ensures
            goes_on == searching(self.spec_task(), max_generation as nat, self.rated()),
    {
        self.best_fitness() < self.task.max_fitness() && self.pop.len() < max_generation
    }

    /// The search: generations follow one another until the best score
    /// reaches the task's highest or the population holds `max_generation`
    /// individuals.
    pub fn learn_task(&mut self, max_generation: usize)
        requires
            old(self).wf(),
            old(self).rated().len() > 0,
            searching(old(self).spec_task(), max_generation as nat, old(self).rated())
                ==> old(self).rated()[0].0.can_mutate(),
        ensures
            final(self).wf(),
            final(self).spec_task() == old(self).spec_task(),
            final(self).staged() == old(self).staged(),
            final(self).rated().len() >= old(self).rated().len(),
            learned(
                old(self).spec_task(),
                max_generation as nat,
                old(self).rated(),
                final(self).rated(),
                (final(self).rated().len() - old(self).rated().len()) as nat,
            ),
            !searching(final(self).spec_task(), max_generation as nat, final(self).rated()),
            final(self).rated().len() > 0,
            final(self).rated()[0].1 >= old(self).rated()[0].1,
    {
        while self.keeps_learning(max_generation)
            invariant
                self.wf(),
                self.spec_task() == old(self).spec_task(),
                self.staged() == old(self).staged(),
                self.rated().len() >= old(self).rated().len(),
                self.rated().len() > 0,
                searching(self.spec_task(), max_generation as nat, self.rated())
                    ==> self.rated()[0].0.can_mutate(),
                self.rated()[0].1 >= old(self).rated()[0].1,
                self.pop@.len() == self.rated().len(),
                learned(
                    old(self).spec_task(),
                    max_generation as nat,
                    old(self).rated(),
                    self.rated(),
                    (self.rated().len() - old(self).rated().len()) as nat,
                ),
            decreases max_generation - self.rated().len(),
        {
            let ghost mid = self.rated();
            self.next_generation();
            assert(is_next_generation(self.spec_task(), mid, self.rated()) && searching(
                self.spec_task(),
                max_generation as nat,
                mid,
            ) && learned(
                self.spec_task(),
                max_generation as nat,
                old(self).rated(),
                mid,
                ((self.rated().len() - old(self).rated().len()) - 1) as nat,
            ));
        }
    }

    /// The text that describes the population: one line for each rated
    /// individual, best first.
    pub fn print(&self) -> (text: String)
        ensures
            text@ == rated_lines(self.rated(), self.rated().len()),
    {
        let mut text = String::new();
        let mut i: usize = 0;
        while i < self.pop.len()
            invariant
                i <= self.pop@.len(),
                self.pop@.len() == self.rated().len(),
                text@ == rated_lines(self.rated(), i as nat),
            decreases self.pop@.len() - i,
        {
            self.pop[i].print(&mut text);
            i += 1;
        }
        text
    }

    /// Rates every staged individual, in the order of staging, ranks each and
    /// empties the staging list. With nothing staged the population stays as
    /// it is.
    pub fn rate_unrated_individuals(&mut self)
        requires
            old(self).wf(),
            old(self).staged_ratable(),
        ensures
            final(self).wf(),
            final(self).spec_task() == old(self).spec_task(),
            final(self).staged() == Seq::<I>::empty(),
            final(self).rated() == ranked_all(
                old(self).spec_task(),
                old(self).rated(),
                old(self).staged(),
            ),
            old(self).staged().len() == 0 ==> final(self).rated() == old(self).rated(),
            final(self).rated().len() == old(self).rated().len() + old(self).staged().len(),
            forall|i: int|
                0 <= i < final(self).rated().len() ==> came_from(
                    old(self).spec_task(),
                    old(self).rated(),
                    old(self).staged(),
                    #[trigger] final(self).rated()[i],
                ),
    {
        proof {
            lemma_ranked_all(self.spec_task(), self.rated(), self.staged());
        }
        let mut staged: Vec<I> = Vec::new();
        core::mem::swap(&mut self.unrated_pop, &mut staged);
        assert(self.rated() =~= old(self).rated());
        assert(old(self).staged().skip(0) =~= old(self).staged());
        for indi in it: staged.into_iter()
            invariant
                self.wf(),
                self.spec_task() == old(self).spec_task(),
                self.staged() == Seq::<I>::empty(),
                it.seq() == old(self).staged(),
                old(self).staged_ratable(),
                ranked_all(self.spec_task(), self.rated(), it.seq().skip(it.index())) == ranked_all(
                    old(self).spec_task(),
                    old(self).rated(),
                    old(self).staged(),
                ),
        {
            proof {
                let rest = it.seq().skip(it.index());
                assert(rest[0] == indi);
                assert(rest.drop_first() =~= it.seq().skip(it.index() + 1));
                assert(ratable(self.spec_task(), old(self).staged()[it.index()]));
            }
            self.add_and_rate_individual(indi);
        }
    }
}

} // verus!
