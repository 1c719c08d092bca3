//! One generation of the search: a population bred from two parents,
//! scored over the corpus, with its probabilistic successor and its
//! best member fixed at construction.
use vstd::prelude::*;
use rayon::iter::{IntoParallelRefIterator, ParallelIterator};
use crate::config::Config;
use crate::frequency::{SymbolFrequencies, calculate_frequencies};
use crate::keyboard::{Keyboard, spec_key_map, spec_lookup};
use crate::layout::Layout;
use crate::mutator::Mutator;
use crate::parser::Position;
use crate::population::{Population, layout_wf, spec_deviation_milli, deviation_between,
    descends_by_swaps, member_entries};
use crate::preservative::spec_restricted;
use crate::selection::{Selection, Score, Scores, scores_wf};
use crate::summary::{Summary, spec_summary, spec_score, summary_wf, weights_wf};

verus! {

/// One candidate's scoring: its summary and its deviation from the
/// population's reference member, in thousandths.
#[derive(Debug, PartialEq, Eq, Clone, Copy)]
pub struct Rating {
    pub summary: Summary,
    pub deviation: u64,
}

/// What a finished generation reports: the probabilistic winner and
/// the best scorer, each with its summary.
#[derive(Debug, PartialEq, Eq, Clone)]
pub struct Outcome {
    pub winner: Layout,
    pub winner_summary: Summary,
    pub best: Layout,
    pub best_summary: Summary,
}

impl Outcome {
    /// An owned copy of the outcome, with the same layouts and
    /// summaries.
    pub fn duplicate(&self) -> (r: Outcome)
        ensures
            r.winner.template@ == self.winner.template@,
            r.winner_summary == self.winner_summary,
            r.best.template@ == self.best.template@,
            r.best_summary == self.best_summary,
    {
        Outcome {
            winner: self.winner.duplicate(),
            winner_summary: self.winner_summary,
            best: self.best.duplicate(),
            best_summary: self.best_summary,
        }
    }
}

/// A generation: its population and its eagerly computed scoring,
/// selection and picks, all fixed at construction.
pub struct Generation {
    pub number: usize,
    pub population: Population,
    pub frequencies: SymbolFrequencies,
    pub results: Vec<Rating>,
    pub selection: Selection,
    pub successor_index: usize,
    pub best_index: usize,
}

/// The bounds a configuration must meet for a generation to be built.
pub open spec fn config_wf(c: Config) -> bool {
    &&& crate::config::penalties_wf(c.penalties)
    &&& weights_wf(c.weights)
    &&& 1 <= c.population.size <= 100000
    &&& 1 <= c.population.steps <= 100000
    &&& c.population.elites <= 100
    &&& c.selection.diversity_bias_milli <= 1_000_000
}

/// The summary a candidate is scored with: the full cost-model and
/// profiler summary when the keyboard can type a space and the inputs
/// are within the machine bounds, an all-zero summary otherwise.
pub open spec fn spec_rating_summary(
    g: crate::geometry::Geometry,
    p: crate::config::PenaltiesConfig,
    corpus: Seq<char>,
    freqs: Seq<(char, usize)>,
    template: Seq<char>,
) -> (int, int, int, int, int) {
    if spec_lookup(spec_key_map(g, template), ' ') is Some && corpus.len()
        <= crate::calculator::MAX_TEXT_LEN && freqs.len() <= 1000000 {
        spec_summary(g, p, template, corpus, freqs)
    } else {
        (0, 0, 0, 0, 0)
    }
}

/// Whether a rating equals the spec rating of `template` against the
/// reference member's template.
pub open spec fn rating_matches(
    c: Config,
    freqs: Seq<(char, usize)>,
    reference: Seq<char>,
    template: Seq<char>,
    r: Rating,
) -> bool {
    let s = spec_rating_summary(c.geometry, c.penalties, c.data@, freqs, template);
    &&& r.summary.effort == s.0
    &&& r.summary.overheads == s.1
    &&& r.summary.awkwardness == s.2
    &&& r.summary.rollingness == s.3
    &&& r.summary.fitness == s.4
    &&& r.deviation == spec_deviation_milli(reference, template)
    &&& summary_wf(r.summary)
    &&& r.deviation <= 1000
}

/// Whether every member of the generation descends from one of the
/// two parent pair-sequences through a finite chain of swaps, keeping
/// every locked position's symbol of that parent on the way.
pub open spec fn bred_from(
    g: Generation,
    pres: Seq<(Position, String)>,
    parent_a: Seq<(Seq<char>, Seq<char>)>,
    parent_b: Seq<(Seq<char>, Seq<char>)>,
) -> bool {
    forall|j: int|
        0 <= j < g.population.members@.len() ==> (descends_by_swaps(
            parent_a,
            member_entries(#[trigger] g.population.members@[j]),
        ) && crate::mutator::keeps_preserved(
            pres,
            parent_a,
            member_entries(g.population.members@[j]),
        )) || (descends_by_swaps(parent_b, member_entries(g.population.members@[j]))
            && crate::mutator::keeps_preserved(
            pres,
            parent_b,
            member_entries(g.population.members@[j]),
        ))
}

/// The structural facts every generation carries.
pub open spec fn generation_wf(g: Generation) -> bool {
    &&& 1 <= g.population.members@.len()
    &&& g.results@.len() == g.population.members@.len()
    &&& g.selection.scores@.len() == g.population.members@.len()
    &&& g.successor_index < g.population.members@.len()
    &&& g.best_index < g.population.members@.len()
    &&& forall|j: int|
        0 <= j < g.population.members@.len() ==> layout_wf(
            (#[trigger] g.population.members@[j]).template@,
        )
}

/// The rating the best member maximizes, per the search's design:
/// the scalar performance score times the profiler fitness, with no
/// deviation term.
pub open spec fn spec_best_rating(w: crate::config::WeightsConfig, s: Summary) -> int {
    spec_score(w, s) * s.fitness
}

/// The scoring facts a freshly bred generation carries: the frequency
/// table counts the corpus, every rating is the spec rating of its
/// member against member 0, the selection scores are the weighted
/// scores with their deviations, the best index maximizes
/// performance times fitness, and the successor index is the first
/// holder of its score.
pub open spec fn generation_scored(g: Generation, c: Config) -> bool {
    &&& forall|j: int|
        0 <= j < g.frequencies@.len() ==> (#[trigger] g.frequencies@[j]).1
            == crate::frequency::spec_count(c.data@, g.frequencies@[j].0)
    &&& forall|j: int|
        0 <= j < g.results@.len() ==> rating_matches(
            c,
            g.frequencies@,
            g.population.members@[0].template@,
            (#[trigger] g.population.members@[j]).template@,
            g.results@[j],
        )
    &&& forall|j: int|
        0 <= j < g.selection.scores@.len() ==> (#[trigger] g.selection.scores@[j]) == (Score {
            performance: spec_score(c.weights, g.results@[j].summary) as u64,
            deviation: g.results@[j].deviation,
        })
    &&& forall|j: int|
        0 <= j < g.results@.len() ==> spec_best_rating(
            c.weights,
            g.results@[g.best_index as int].summary,
        ) >= spec_best_rating(c.weights, (#[trigger] g.results@[j]).summary)
    &&& forall|k: int|
        0 <= k < g.successor_index ==> (#[trigger] g.selection.scores@[k])
            != g.selection.scores@[g.successor_index as int]
}

/// Scores one candidate: the cost model and profiler over its
/// keyboard, and its deviation from the reference member.
pub fn rate_layout(
    layout: &Layout,
    reference: &Layout,
    config: &Config,
    frequencies: &SymbolFrequencies,
) -> (rating: Rating)
    requires
        crate::config::penalties_wf(config.penalties),
    ensures
        rating_matches(*config, frequencies@, reference.template@, layout.template@, rating),
{
    let deviation = deviation_between(reference, layout);
    let keyboard = Keyboard::from(layout.duplicate(), config.geometry.duplicate());
    proof {
        crate::keyboard::lemma_key_map_congruent(
            keyboard.geometry,
            config.geometry,
            layout.template@,
        );
        assert(keyboard.key_map@ == spec_key_map(config.geometry, layout.template@));
    }
    let space_ok = match keyboard.key_for(&' ') {
        Some(_) => true,
        None => false,
    };
    let corpus_chars = crate::chars::to_char_vec(config.data.as_str());
    let corpus_ok = (corpus_chars.len() as u64) <= crate::calculator::MAX_TEXT_LEN
        && frequencies.len() <= 1000000;
    if space_ok && corpus_ok {
        let summary = Summary::calculate(&keyboard, &config.penalties, &config.data, frequencies);
        proof {
            crate::summary::lemma_summary_congruent(
                keyboard.geometry,
                config.geometry,
                config.penalties,
                layout.template@,
                config.data@,
                frequencies@,
            );
        }
        Rating { summary, deviation }
    } else {
        let summary = Summary {
            effort: 0,
            overheads: 0,
            awkwardness: 0,
            rollingness: 0,
            fitness: 0,
        };
        Rating { summary, deviation }
    }
}

/// Relies on rayon's parallel iterator: maps `rate_layout` over the
/// members in parallel and collects the ratings in order.  The closure
/// only calls the verified `rate_layout`.
#[verifier::external_body]
fn rate_all(
    members: &Vec<Layout>,
    reference: &Layout,
    config: &Config,
    frequencies: &SymbolFrequencies,
) -> (results: Vec<Rating>)
    requires
        crate::config::penalties_wf(config.penalties),
    ensures
        results@.len() == members@.len(),
        forall|j: int|
            0 <= j < members@.len() ==> rating_matches(
                *config,
                frequencies@,
                reference.template@,
                (#[trigger] members@[j]).template@,
                results@[j],
            ),
{
    members.par_iter().map(|layout| rate_layout(layout, reference, config, frequencies)).collect()
}

/// The product of a score and a fitness stays within 64 bits.
proof fn lemma_rating_in_range(performance: u64, fitness: u64)
    requires
        performance <= 1_000_000_000_000,
        fitness <= 30_000,
    ensures
        performance * fitness <= 30_000_000_000_000_000,
{
    assert(performance * fitness <= 30_000_000_000_000_000) by (nonlinear_arith)
        requires
            0 <= performance <= 1_000_000_000_000,
            0 <= fitness <= 30_000,
    ;
}

impl Generation {
    /// The first generation: the built-in QWERTY layout bred with
    /// itself.  `None` only if the built-in template fails its own
    /// parse, which a run never sees.
    pub fn zero(config: &Config, mutator: &Mutator) -> (r: Option<Generation>)
        requires
            config_wf(*config),
            forall|q: Position|
                spec_restricted(mutator.presie.restriced_positions@, q) ==> q.1 <= 1,
        ensures
            match r {
                Some(g) => generation_wf(g) && g.number == 1 && g.population.members@.len()
                    == config.population.size && g.population.members@[0].template@
                    == crate::layouts::QWERTY_TEMPLATE@ && generation_scored(g, *config)
                    && bred_from(
                    g,
                    mutator.presie.restriced_positions@,
                    crate::layout::spec_entries(crate::layouts::QWERTY_TEMPLATE@).map_values(
                        |e: (Position, (Seq<char>, Seq<char>))| e.1,
                    ),
                    crate::layout::spec_entries(crate::layouts::QWERTY_TEMPLATE@).map_values(
                        |e: (Position, (Seq<char>, Seq<char>))| e.1,
                    ),
                ),
                None => !layout_wf(crate::layouts::QWERTY_TEMPLATE@),
            },
    {
        let layout = crate::layouts::qwerty();
        let entries = layout.entries();
        if entries.len() == 47 {
            Some(Generation::new(1, &layout, config, mutator))
        } else {
            None
        }
    }

    /// A generation bred from a single parent.
    pub fn new(number: usize, layout: &Layout, config: &Config, mutator: &Mutator) -> (g:
        Generation)
        requires
            config_wf(*config),
            layout_wf(layout.template@),
            forall|q: Position|
                spec_restricted(mutator.presie.restriced_positions@, q) ==> q.1 <= 1,
        ensures
            generation_wf(g),
            g.number == number,
            g.population.members@.len() == config.population.size,
            g.population.members@[0].template@ == layout.template@,
            generation_scored(g, *config),
            bred_from(
                g,
                mutator.presie.restriced_positions@,
                member_entries(*layout),
                member_entries(*layout),
            ),
    {
        Generation::spawn(number, layout, layout, config, mutator)
    }

    /// Breeds and scores a full generation from two parents: builds
    /// the population, rates every member in parallel, forms the
    /// selection scores, and fixes the successor (one probabilistic
    /// draw) and the best member (the first maximizer of performance
    /// times fitness, with no deviation term).
    #[verifier::rlimit(100)]
    pub fn spawn(
        number: usize,
        mom: &Layout,
        dad: &Layout,
        config: &Config,
        mutator: &Mutator,
    ) -> (g: Generation)
        requires
            config_wf(*config),
            layout_wf(mom.template@),
            layout_wf(dad.template@),
            forall|q: Position|
                spec_restricted(mutator.presie.restriced_positions@, q) ==> q.1 <= 1,
        ensures
            generation_wf(g),
            g.number == number,
            g.population.members@.len() == config.population.size,
            g.population.members@[0].template@ == mom.template@,
            generation_scored(g, *config),
            bred_from(
                g,
                mutator.presie.restriced_positions@,
                member_entries(*mom),
                member_entries(*dad),
            ),
    {
        let population = Population::new(mom, dad, &config.population, mutator);
        let frequencies = calculate_frequencies(&config.data);
        let results = rate_all(&population.members, &population.members[0], config, &frequencies);
        let ghost mv = population.members@;

        let mut scores: Scores = Vec::new();
        let n: usize = results.len();
        for j in 0..n
            invariant
                n == results@.len() && n == mv.len(),
                mv == population.members@,
                weights_wf(config.weights),
                forall|k: int|
                    0 <= k < results@.len() ==> rating_matches(
                        *config,
                        frequencies@,
                        mv[0].template@,
                        (#[trigger] mv[k]).template@,
                        results@[k],
                    ),
                scores@.len() == j,
                forall|k: int|
                    0 <= k < j ==> (#[trigger] scores@[k]) == (Score {
                        performance: spec_score(config.weights, results@[k].summary) as u64,
                        deviation: results@[k].deviation,
                    }),
                scores_wf(scores@),
        {
            assert(rating_matches(
                *config,
                frequencies@,
                mv[0].template@,
                mv[j as int].template@,
                results@[j as int],
            ));
            let performance = results[j].summary.score(&config.weights);
            let deviation = results[j].deviation;
            scores.push(Score { performance, deviation });
        }
        let selection = Selection { scores };

        let mut best_index: usize = 0;
        proof {
            assert(selection.scores@[0] == (Score {
                performance: spec_score(config.weights, results@[0].summary) as u64,
                deviation: results@[0].deviation,
            }));
            assert(rating_matches(
                *config,
                frequencies@,
                mv[0].template@,
                mv[0].template@,
                results@[0],
            ));
            crate::summary::lemma_score_bounds(config.weights, results@[0].summary);
            lemma_rating_in_range(
                selection.scores@[0].performance,
                results@[0].summary.fitness,
            );
        }
        let mut best_rating: u64 = selection.scores[0].performance * results[0].summary.fitness;
        proof {
            assert(best_rating == spec_best_rating(config.weights, results@[0].summary));
        }
        for j in 1..n
            invariant
                n == selection.scores@.len() && n == results@.len() && n == mv.len(),
                mv == population.members@,
                n >= 1,
                best_index < n,
                forall|k: int|
                    0 <= k < results@.len() ==> rating_matches(
                        *config,
                        frequencies@,
                        mv[0].template@,
                        (#[trigger] mv[k]).template@,
                        results@[k],
                    ),
                forall|k: int|
                    0 <= k < n ==> (#[trigger] selection.scores@[k]) == (Score {
                        performance: spec_score(config.weights, results@[k].summary) as u64,
                        deviation: results@[k].deviation,
                    }),
                scores_wf(selection.scores@),
                best_rating == spec_best_rating(
                    config.weights,
                    results@[best_index as int].summary,
                ),
                forall|k: int|
                    0 <= k < j ==> spec_best_rating(
                        config.weights,
                        results@[best_index as int].summary,
                    ) >= spec_best_rating(config.weights, (#[trigger] results@[k]).summary),
        {
            proof {
                assert(selection.scores@[j as int] == (Score {
                    performance: spec_score(config.weights, results@[j as int].summary) as u64,
                    deviation: results@[j as int].deviation,
                }));
                assert(rating_matches(
                    *config,
                    frequencies@,
                    mv[0].template@,
                    mv[j as int].template@,
                    results@[j as int],
                ));
                crate::summary::lemma_score_bounds(config.weights, results@[j as int].summary);
                lemma_rating_in_range(
                    selection.scores@[j as int].performance,
                    results@[j as int].summary.fitness,
                );
            }
            let rating = selection.scores[j].performance * results[j].summary.fitness;
            assert(rating == spec_best_rating(config.weights, results@[j as int].summary));
            if rating > best_rating {
                best_index = j;
                best_rating = rating;
            }
        }

        let drawn = selection.lucky_draw(&config.selection);
        let mut successor_index: usize = 0;
        let mut found = false;
        for k in 0..n
            invariant
                n == selection.scores@.len(),
                n >= 1,
                successor_index < n,
                found ==> selection.scores@[successor_index as int] == drawn && (forall|m: int|
                    0 <= m < successor_index ==> (#[trigger] selection.scores@[m]) != drawn),
                !found ==> forall|m: int|
                    0 <= m < k ==> (#[trigger] selection.scores@[m]) != drawn,
        {
            if !found && selection.scores[k] == drawn {
                successor_index = k;
                found = true;
            }
        }
        proof {
            if !found {
                let w = choose|w: int|
                    0 <= w < selection.scores@.len() && selection.scores@[w] == drawn;
                assert(selection.scores@[w] != drawn);
            }
        }

        Generation {
            number,
            population,
            frequencies,
            results,
            selection,
            successor_index,
            best_index,
        }
    }

    /// The next generation, bred from this one's successor and best.
    pub fn next(&self, config: &Config, mutator: &Mutator) -> (g: Generation)
        requires
            generation_wf(*self),
            config_wf(*config),
            forall|q: Position|
                spec_restricted(mutator.presie.restriced_positions@, q) ==> q.1 <= 1,
            self.number < usize::MAX,
        ensures
            generation_wf(g),
            g.number == self.number + 1,
            g.population.members@.len() == config.population.size,
            g.population.members@[0].template@
                == self.population.members@[self.successor_index as int].template@,
            generation_scored(g, *config),
            bred_from(
                g,
                mutator.presie.restriced_positions@,
                member_entries(self.population.members@[self.successor_index as int]),
                member_entries(self.population.members@[self.best_index as int]),
            ),
    {
        let mom = self.best();
        let dad = self.successor();
        let mom_copy = mom.duplicate();
        let dad_copy = dad.duplicate();
        let g = Generation::spawn(self.number + 1, &dad_copy, &mom_copy, config, mutator);
        proof {
            assert(member_entries(dad_copy) == member_entries(
                self.population.members@[self.successor_index as int],
            ));
            assert(member_entries(mom_copy) == member_entries(
                self.population.members@[self.best_index as int],
            ));
        }
        g
    }

    /// The probabilistically drawn successor member.
    pub fn successor(&self) -> (r: &Layout)
        requires
            generation_wf(*self),
        ensures
            r == self.population.members@[self.successor_index as int],
    {
        &self.population.members[self.successor_index]
    }

    /// The member whose performance-times-fitness rating is highest.
    pub fn best(&self) -> (r: &Layout)
        requires
            generation_wf(*self),
        ensures
            r == self.population.members@[self.best_index as int],
    {
        &self.population.members[self.best_index]
    }

    /// The generation's report: winner (successor) and best, each with
    /// its summary.
    pub fn outcome(&self) -> (outcome: Outcome)
        requires
            generation_wf(*self),
        ensures
            outcome.winner.template@
                == self.population.members@[self.successor_index as int].template@,
            outcome.winner_summary == self.results@[self.successor_index as int].summary,
            outcome.best.template@ == self.population.members@[self.best_index as int].template@,
            outcome.best_summary == self.results@[self.best_index as int].summary,
    {
        Outcome {
            winner: self.population.members[self.successor_index].duplicate(),
            winner_summary: self.results[self.successor_index].summary,
            best: self.population.members[self.best_index].duplicate(),
            best_summary: self.results[self.best_index].summary,
        }
    }

    /// The summary of the first member whose template equals
    /// `layout`'s.  The layout must be one of the population's members
    /// (the search only ever asks about members; on anything else the
    /// question has no answer).
    pub fn summary_for(&self, layout: &Layout) -> (r: Option<Summary>)
        requires
            generation_wf(*self),
            exists|j: int|
                0 <= j < self.population.members@.len()
                    && (#[trigger] self.population.members@[j]).template@ == layout.template@,
        ensures
            r is Some,
            exists|j: int|
                0 <= j < self.population.members@.len()
                    && (#[trigger] self.population.members@[j]).template@ == layout.template@
                    && r->Some_0 == self.results@[j].summary && (forall|k: int|
                    0 <= k < j ==> self.population.members@[k].template@ != layout.template@),
    {
        let n: usize = self.population.members.len();
        for j in 0..n
            invariant
                n == self.population.members@.len(),
                n == self.results@.len(),
                forall|k: int|
                    0 <= k < j ==> (#[trigger] self.population.members@[k]).template@
                        != layout.template@,
        {
            if self.population.members[j].template.eq(&layout.template) {
                let summary = self.results[j].summary;
                assert(self.population.members@[j as int].template@ == layout.template@);
                return Some(summary);
            }
        }
        proof {
            let w = choose|w: int|
                0 <= w < self.population.members@.len()
                    && (#[trigger] self.population.members@[w]).template@ == layout.template@;
            assert(self.population.members@[w].template@ != layout.template@);
        }
        None
    }
}

} // verus!
