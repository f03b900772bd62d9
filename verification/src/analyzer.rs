use vstd::prelude::*;

use crate::document::{field_value, ResultDocument, Value};
use crate::error::TipupError;
use crate::flag_manager::{Flag, FlagChannel, FlagKind};

verus! {

/// The field name and threshold a statistical analyzer is configured with,
/// if its parameter list is well-formed: exactly a text value (the payload
/// field to watch) followed by an integer (the threshold).
pub open spec fn bayesian_params(params: Seq<Value>) -> Option<(String, i64)> {
    if params.len() == 2 {
        match (params[0], params[1]) {
            (Value::Text(f), Value::Int(t)) => Some((f, t)),
            _ => None,
        }
    } else {
        None
    }
}

/// The statistical analyzer kind: it watches one integer payload field and
/// raises an anomaly flag for every observation whose value lies above its
/// configured threshold.
pub struct BayesianAnalyzer {
    pub name: String,
    pub field: String,
    pub threshold: i64,
}

impl BayesianAnalyzer {
    /// The flag this analyzer raises for a document.
    pub open spec fn flag_for(self, doc: ResultDocument) -> Flag {
        (Flag {
            analyzer_name: self.name,
            hostname: doc.hostname,
            measurement: doc.measurement,
            timestamp: doc.timestamp,
            kind: FlagKind::Anomaly,
            message: self.field,
        })
    }

    /// Whether consuming a document succeeds, and with which error it fails:
    /// the watched payload field must be present and hold an integer.
    pub open spec fn verdict(self, doc: ResultDocument) -> Result<(), TipupError> {
        match field_value(doc.payload@, self.field@) {
            None => Err(TipupError::MissingPayloadField),
            Some(Value::Int(_)) => Ok(()),
            Some(_) => Err(TipupError::NonIntegerPayloadField),
        }
    }

    /// The flags consuming a document sends: one anomaly flag when the
    /// watched value lies above the threshold, none otherwise.
    pub open spec fn emissions(self, doc: ResultDocument) -> Seq<Flag> {
        match field_value(doc.payload@, self.field@) {
            Some(Value::Int(v)) => if v > self.threshold {
                seq![self.flag_for(doc)]
            } else {
                Seq::empty()
            },
            _ => Seq::empty(),
        }
    }

    /// Builds a statistical analyzer named `name` from its parameter list,
    /// rejecting a malformed list.
    pub fn new(name: String, parameters: &Vec<Value>) -> (r: Result<BayesianAnalyzer, TipupError>)
        ensures
            r is Ok <==> bayesian_params(parameters@) is Some,
            match r {
                Ok(a) => bayesian_params(parameters@) == Some((a.field, a.threshold))
                    && a.name == name,
                Err(e) => e == TipupError::MalformedParameters,
            },
    {
        if parameters.len() == 2 {
            match (&parameters[0], &parameters[1]) {
                (Value::Text(f), Value::Int(t)) => Ok(
                    BayesianAnalyzer { name, field: f.clone(), threshold: *t },
                ),
                _ => Err(TipupError::MalformedParameters),
            }
        } else {
            Err(TipupError::MalformedParameters)
        }
    }

    /// Consumes one result document: reads the watched payload field and
    /// sends an anomaly flag into the channel when its value lies above the
    /// threshold.
    pub fn add_result(&self, doc: &ResultDocument, chan: &mut FlagChannel) -> (r: Result<
        (),
        TipupError,
    >)
        requires
            old(chan).wf(),
        ensures
            final(chan).wf(),
            final(chan).queued() == old(chan).queued() + self.emissions(*doc),
            final(chan).sent() == old(chan).sent() + self.emissions(*doc),
            final(chan).delivered() == old(chan).delivered(),
            r == self.verdict(*doc),
    {
        let found = crate::document::find_field(&doc.payload, &self.field);
        match found {
            None => {
                proof {
                    assert(old(chan).queued() + self.emissions(*doc) =~= old(chan).queued());
                    assert(old(chan).sent() + self.emissions(*doc) =~= old(chan).sent());
                }
                Err(TipupError::MissingPayloadField)
            },
            Some(i) => match &doc.payload[i].value {
                Value::Int(v) => {
                    if *v > self.threshold {
                        let flag = Flag {
                            analyzer_name: self.name.clone(),
                            hostname: doc.hostname.clone(),
                            measurement: doc.measurement.clone(),
                            timestamp: doc.timestamp,
                            kind: FlagKind::Anomaly,
                            message: self.field.clone(),
                        };
                        proof {
                            assert(flag == self.flag_for(*doc));
                        }
                        chan.send(flag);
                        proof {
                            assert(old(chan).queued().push(flag) =~= old(chan).queued()
                                + self.emissions(*doc));
                            assert(old(chan).sent().push(flag) =~= old(chan).sent()
                                + self.emissions(*doc));
                        }
                    } else {
                        proof {
                            assert(old(chan).queued() + self.emissions(*doc) =~= old(
                                chan,
                            ).queued());
                            assert(old(chan).sent() + self.emissions(*doc) =~= old(chan).sent());
                        }
                    }
                    Ok(())
                },
                _ => {
                    proof {
                        assert(old(chan).queued() + self.emissions(*doc) =~= old(chan).queued());
                        assert(old(chan).sent() + self.emissions(*doc) =~= old(chan).sent());
                    }
                    Err(TipupError::NonIntegerPayloadField)
                },
            },
        }
    }
}

/// The placeholder analyzer kind: it records the capability without
/// implementing a detector yet. It consumes every document, never fails
/// and never raises a flag.
pub struct ErrorAnalyzer {}

impl ErrorAnalyzer {
    /// Builds a placeholder analyzer. Its parameter list is ignored, so
    /// construction always succeeds.
    pub fn new(_parameters: &Vec<Value>) -> (r: Result<ErrorAnalyzer, TipupError>)
        ensures
            r == Ok::<ErrorAnalyzer, TipupError>(ErrorAnalyzer {  }),
    {
        Ok(ErrorAnalyzer {  })
    }

    /// Consumes one result document without doing any work.
    pub fn add_result(&self, _doc: &ResultDocument, chan: &mut FlagChannel) -> (r: Result<
        (),
        TipupError,
    >)
        requires
            old(chan).wf(),
        ensures
            *final(chan) == *old(chan),
            r is Ok,
    {
        Ok(())
    }
}

/// One analyzer instance: the closed set of analyzer kinds behind the one
/// capability the demultiplexor relies on — consume one result document,
/// optionally raising flags.
pub enum Analyzer {
    Bayesian(BayesianAnalyzer),
    Error(ErrorAnalyzer),
}

impl Analyzer {
    /// Whether consuming a document succeeds, and with which error it fails.
    pub open spec fn verdict(self, doc: ResultDocument) -> Result<(), TipupError> {
        match self {
            Analyzer::Bayesian(a) => a.verdict(doc),
            Analyzer::Error(_) => Ok(()),
        }
    }

    /// The flags consuming a document sends, in send order.
    pub open spec fn emissions(self, doc: ResultDocument) -> Seq<Flag> {
        match self {
            Analyzer::Bayesian(a) => a.emissions(doc),
            Analyzer::Error(_) => Seq::empty(),
        }
    }

    /// Consumes one result document, sending any flags it raises into the
    /// channel. A failure leaves the channel exactly as a silent success
    /// would: dispatching to other analyzers is never disturbed.
    pub fn add_result(&self, doc: &ResultDocument, chan: &mut FlagChannel) -> (r: Result<
        (),
        TipupError,
    >)
        requires
            old(chan).wf(),
        ensures
            final(chan).wf(),
            final(chan).queued() == old(chan).queued() + self.emissions(*doc),
            final(chan).sent() == old(chan).sent() + self.emissions(*doc),
            final(chan).delivered() == old(chan).delivered(),
            r == self.verdict(*doc),
    {
        match self {
            Analyzer::Bayesian(a) => {
                let r = a.add_result(doc, chan);
                proof {
                    assert(self.emissions(*doc) == a.emissions(*doc));
                    assert(self.verdict(*doc) == a.verdict(*doc));
                    crate::error::lemma_outcome_eq(r, self.verdict(*doc));
                }
                r
            },
            Analyzer::Error(a) => {
                let r = a.add_result(doc, chan);
                proof {
                    assert(old(chan).queued() + self.emissions(*doc) =~= old(chan).queued());
                    assert(old(chan).sent() + self.emissions(*doc) =~= old(chan).sent());
                    assert(self.verdict(*doc) == Ok::<(), TipupError>(()));
                    crate::error::lemma_outcome_eq(r, self.verdict(*doc));
                }
                r
            },
        }
    }
}

} // verus!
