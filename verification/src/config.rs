//! Run-time settings: scoring penalties and weights, population and
//! selection tuning, and the benchmark corpus.  A configuration is an
//! explicit value handed to the components that read it; the compiled
//! defaults below stand in when no external settings are available.
use vstd::prelude::*;
use vstd::string::StrSliceExecFns;
use crate::geometry::Geometry;
use crate::preservative::Preservative;

verus! {

/// Penalties of the cost model, in effort units; `rolling_discount` is
/// the percentage of a digraph penalty that a rolling pair waives.
pub struct PenaltiesConfig {
    pub same_hand: usize,
    pub same_finger: usize,
    pub bad_starter: usize,
    pub row_skip: usize,
    pub row_jump: usize,
    pub rolling_discount: usize,
}

/// Per-axis weights of the scalar score.
pub struct WeightsConfig {
    pub effort: usize,
    pub overheads: usize,
    pub awkwardness: usize,
    pub rollingness: usize,
    pub fitness: usize,
}

/// Selection tuning: the percentage chance of taking the current head
/// of the rank space, and the deviation-axis multiplier in thousandths.
pub struct SelectionConfig {
    pub rank_space_cut_off: usize,
    pub diversity_bias_milli: usize,
}

/// Population tuning: how many candidates a generation holds, across
/// how many batches, what share of a batch seeds from the elite
/// parent, and whether symbol mutation alternates with key mutation.
pub struct PopulationConfig {
    pub size: usize,
    pub steps: usize,
    pub elites: usize,
    pub symbols: bool,
}

/// A full configuration: the board, the locked positions, the corpus,
/// and all tuning values.
pub struct Config {
    pub geometry: Geometry,
    pub preserve: Preservative,
    pub data: String,
    pub progress_window_size: usize,
    pub population: PopulationConfig,
    pub selection: SelectionConfig,
    pub weights: WeightsConfig,
    pub penalties: PenaltiesConfig,
}

/// The bounds that the cost model's overflow argument rests on.
pub open spec fn penalties_wf(p: PenaltiesConfig) -> bool {
    &&& p.same_hand <= 10000
    &&& p.same_finger <= 10000
    &&& p.bad_starter <= 10000
    &&& p.row_skip <= 10000
    &&& p.row_jump <= 10000
    &&& p.rolling_discount <= 100
}

/// The compiled default penalties.
pub fn default_penalties() -> (p: PenaltiesConfig)
    ensures
        p.same_hand == 5,
        p.same_finger == 100,
        p.bad_starter == 80,
        p.row_skip == 50,
        p.row_jump == 30,
        p.rolling_discount == 80,
        penalties_wf(p),
{
    PenaltiesConfig {
        same_hand: 5,
        same_finger: 100,
        bad_starter: 80,
        row_skip: 50,
        row_jump: 30,
        rolling_discount: 80,
    }
}

/// The compiled default weights: every axis weighs the same.
pub fn default_weights() -> (w: WeightsConfig)
    ensures
        w.effort == 1 && w.overheads == 1 && w.awkwardness == 1 && w.rollingness == 1
            && w.fitness == 1,
{
    WeightsConfig { effort: 1, overheads: 1, awkwardness: 1, rollingness: 1, fitness: 1 }
}

/// The compiled default selection tuning.
pub fn default_selection() -> (s: SelectionConfig)
    ensures
        s.rank_space_cut_off == 50,
        s.diversity_bias_milli == 1000,
{
    SelectionConfig { rank_space_cut_off: 50, diversity_bias_milli: 1000 }
}

/// The compiled default population tuning.
pub fn default_population() -> (p: PopulationConfig)
    ensures
        p.size == 30 && p.steps == 3 && p.elites == 30 && p.symbols,
{
    PopulationConfig { size: 30, steps: 3, elites: 30, symbols: true }
}

/// A built-in benchmark text, used when no corpus folder is loaded.
pub fn lorem_ipsum() -> (text: String) {
    "\n  Lorem Ipsum è un testo segnaposto utilizzato nel settore della tipografia e della stampa. \n  Lorem Ipsum è considerato il testo segnaposto standard sin dal sedicesimo secolo, \n  quando un anonimo tipografo prese una cassetta di caratteri e li assemblò per preparare \n  un testo campione. È sopravvissuto non solo a più di cinque secoli, ma anche al passaggio \n  alla videoimpaginazione, pervenendoci sostanzialmente inalterato. Fu reso popolare, negli \n  anni ’60, con la diffusione dei fogli di caratteri trasferibili “Letraset”, che contenevano \n  passaggi del Lorem Ipsum, e più recentemente da software di impaginazione come Aldus PageMaker, \n  che includeva versioni del Lorem Ipsum.\n  ".to_owned()
}

impl Config {
    /// The compiled default configuration: the US PC board, nothing
    /// preserved, the built-in corpus, and the default tuning values.
    pub fn defaults() -> (config: Config)
        ensures
            penalties_wf(config.penalties),
            config.geometry.template@ == crate::geometry::US_PC_TEMPLATE@,
            config.population.size == 30 && config.population.steps == 3
                && config.population.elites == 30 && config.population.symbols,
            config.selection.rank_space_cut_off == 50 && config.selection.diversity_bias_milli
                == 1000,
            config.weights.effort == 1 && config.weights.overheads == 1
                && config.weights.awkwardness == 1 && config.weights.rollingness == 1
                && config.weights.fitness == 1,
            config.penalties.same_hand == 5 && config.penalties.same_finger == 100
                && config.penalties.bad_starter == 80 && config.penalties.row_skip == 50
                && config.penalties.row_jump == 30 && config.penalties.rolling_discount == 80,
            config.progress_window_size == 200,
            forall|p: crate::parser::Position|
                !crate::preservative::spec_restricted(config.preserve.restriced_positions@, p),
    {
        let preserve = Preservative::from("".to_owned());
        proof {
            reveal_strlit("");
            assert(crate::layout::spec_entries(""@).len() == 0);
            assert forall|p: crate::parser::Position|
                !crate::preservative::spec_restricted(preserve.restriced_positions@, p) by {
                assert(!crate::preservative::spec_preserved_at(
                    crate::layout::spec_entries(""@),
                    p,
                ));
            }
        }
        Config {
            geometry: Geometry::us_pc(),
            preserve,
            data: lorem_ipsum(),
            progress_window_size: 200,
            population: default_population(),
            selection: default_selection(),
            weights: default_weights(),
            penalties: default_penalties(),
        }
    }
}

} // verus!
