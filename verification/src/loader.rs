use vstd::prelude::*;

use crate::analyzer::{bayesian_params, Analyzer, BayesianAnalyzer, ErrorAnalyzer};
use crate::demultiplexor::{reg_exists, Demultiplexor, Registration};
use crate::document::AnalyzerDefinition;
use crate::error::TipupError;

verus! {

/// The analyzer a definition builds: its `class` names one of the known
/// analyzer kinds, and the kind's constructor reads the parameter list. An
/// unknown class is a configuration error.
pub open spec fn built_analyzer(def: AnalyzerDefinition) -> Result<Analyzer, TipupError> {
    if def.class@ == "BayesianAnalyzer"@ {
        match bayesian_params(def.parameters@) {
            Some((f, t)) => Ok(
                Analyzer::Bayesian(
                    (BayesianAnalyzer { name: def.name, field: f, threshold: t }),
                ),
            ),
            None => Err(TipupError::MalformedParameters),
        }
    } else if def.class@ == "ErrorAnalyzer"@ {
        Ok(Analyzer::Error((ErrorAnalyzer {  })))
    } else {
        Err(TipupError::UnknownAnalyzerClass)
    }
}

/// What registering one definition does to a registry: the registrations
/// afterwards, and the outcome.
pub open spec fn load_step(regs: Seq<Registration>, def: AnalyzerDefinition) -> (
    Seq<Registration>,
    Result<(), TipupError>,
) {
    match built_analyzer(def) {
        Err(e) => (regs, Err(e)),
        Ok(a) => {
            if def.measurement@.len() == 0 {
                (regs, Err(TipupError::EmptyMeasurement))
            } else if reg_exists(regs, def.name@, def.measurement@) {
                (regs, Err(TipupError::DuplicateRegistration))
            } else {
                (
                    regs.push((Registration { name: def.name, measurement: def.measurement, analyzer: a })),
                    Ok(()),
                )
            }
        },
    }
}

/// What loading a list of definitions does to a registry, stopping at the
/// first failure: the registrations afterwards, and the outcome.
pub open spec fn load_all(regs: Seq<Registration>, defs: Seq<AnalyzerDefinition>) -> (
    Seq<Registration>,
    Result<(), TipupError>,
)
    decreases defs.len(),
{
    if defs.len() == 0 {
        (regs, Ok(()))
    } else {
        let step = load_step(regs, defs[0]);
        if step.1 is Err {
            step
        } else {
            load_all(step.0, defs.drop_first())
        }
    }
}

/// Builds the analyzer a definition describes and registers it under the
/// definition's measurement and name.
pub fn register_analyzer(demux: &mut Demultiplexor, def: AnalyzerDefinition) -> (r: Result<
    (),
    TipupError,
>)
    requires
        old(demux).wf(),
    ensures
        final(demux).wf(),
        final(demux).deliveries() == old(demux).deliveries(),
        final(demux).regs() == load_step(old(demux).regs(), def).0,
        r == load_step(old(demux).regs(), def).1,
{
    let bayesian_class = "BayesianAnalyzer".to_owned();
    let error_class = "ErrorAnalyzer".to_owned();
    let analyzer: Analyzer = if def.class == bayesian_class {
        match BayesianAnalyzer::new(def.name.clone(), &def.parameters) {
            Ok(a) => Analyzer::Bayesian(a),
            Err(e) => {
                return Err(e);
            },
        }
    } else if def.class == error_class {
        match ErrorAnalyzer::new(&def.parameters) {
            Ok(a) => Analyzer::Error(a),
            Err(e) => {
                return Err(e);
            },
        }
    } else {
        return Err(TipupError::UnknownAnalyzerClass);
    };
    proof {
        assert(built_analyzer(def) == Ok::<Analyzer, TipupError>(analyzer));
    }
    let r = demux.add_analyzer(def.name, def.measurement, analyzer);
    proof {
        crate::error::lemma_outcome_eq(r, load_step(old(demux).regs(), def).1);
    }
    r
}

/// Loads a sequence of analyzer definitions into the registry, in order,
/// stopping at the first definition that fails to build or register — a
/// broken configuration is reported at load time, not swallowed.
#[verifier::loop_isolation(false)]
pub fn load_analyzers(demux: &mut Demultiplexor, defs: Vec<AnalyzerDefinition>) -> (r: Result<
    (),
    TipupError,
>)
    requires
        old(demux).wf(),
    ensures
        final(demux).wf(),
        final(demux).deliveries() == old(demux).deliveries(),
        final(demux).regs() == load_all(old(demux).regs(), defs@).0,
        r == load_all(old(demux).regs(), defs@).1,
{
    let mut defs = defs;
    let ghost defs0 = defs@;
    while defs.len() > 0
        invariant
            demux.wf(),
            demux.deliveries() == old(demux).deliveries(),
            load_all(old(demux).regs(), defs0) == load_all(demux.regs(), defs@),
        decreases defs@.len(),
    {
        let ghost defs_before = defs@;
        let ghost regs_before = demux.regs();
        let def = defs.remove(0);
        proof {
            assert(defs_before[0] == def);
            assert(defs_before.drop_first() =~= defs@);
        }
        let step = register_analyzer(demux, def);
        if let Err(e) = step {
            proof {
                assert(step == Err::<(), TipupError>(e));
                assert(load_step(regs_before, def).1 == Err::<(), TipupError>(e));
                assert(load_all(regs_before, defs_before).0 == demux.regs());
                assert(load_all(regs_before, defs_before).1 == Err::<(), TipupError>(e));
            }
            return Err(e);
        }
    }
    Ok(())
}

} // verus!
