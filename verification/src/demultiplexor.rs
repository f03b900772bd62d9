use vstd::prelude::*;

use crate::analyzer::Analyzer;
use crate::document::ResultDocument;
use crate::error::TipupError;
use crate::flag_manager::{Flag, FlagChannel};

verus! {

/// One analyzer bound to a measurement name under a human-readable name.
pub struct Registration {
    pub name: String,
    pub measurement: String,
    pub analyzer: Analyzer,
}

/// Whether a registration matches a document: its measurement equals the
/// document's routing key.
pub open spec fn routed(reg: Registration, doc: ResultDocument) -> bool {
    reg.measurement@ == doc.measurement@
}

/// Whether some registration carries this `(name, measurement)` pair.
pub open spec fn reg_exists(regs: Seq<Registration>, name: Seq<char>, measurement: Seq<char>) -> bool {
    exists|i: int|
        0 <= i < regs.len() && (#[trigger] regs[i]).name@ == name && regs[i].measurement@
            == measurement
}

/// The deliveries dispatching one document produces: one entry per matching
/// registration, in registry order, carrying the registration's index and
/// the document.
pub open spec fn dispatch_log(regs: Seq<Registration>, doc: ResultDocument) -> Seq<
    (int, ResultDocument),
>
    decreases regs.len(),
{
    if regs.len() == 0 {
        Seq::empty()
    } else {
        let pre = dispatch_log(regs.drop_last(), doc);
        if routed(regs.last(), doc) {
            pre.push((regs.len() - 1, doc))
        } else {
            pre
        }
    }
}

/// The flags dispatching one document sends: each matching analyzer's
/// emissions, concatenated in registry order.
pub open spec fn dispatch_emissions(regs: Seq<Registration>, doc: ResultDocument) -> Seq<Flag>
    decreases regs.len(),
{
    if regs.len() == 0 {
        Seq::empty()
    } else {
        let pre = dispatch_emissions(regs.drop_last(), doc);
        if routed(regs.last(), doc) {
            pre + regs.last().analyzer.emissions(doc)
        } else {
            pre
        }
    }
}

/// The outcome of dispatching one document: success, or the error of the
/// first matching analyzer that rejected it. A failure never stops the
/// remaining matches from being invoked.
pub open spec fn dispatch_verdict(regs: Seq<Registration>, doc: ResultDocument) -> Result<
    (),
    TipupError,
>
    decreases regs.len(),
{
    if regs.len() == 0 {
        Ok(())
    } else {
        let pre = dispatch_verdict(regs.drop_last(), doc);
        if pre is Err {
            pre
        } else if routed(regs.last(), doc) {
            regs.last().analyzer.verdict(doc)
        } else {
            Ok(())
        }
    }
}

/// The registry from measurement names to analyzers, and the router. It is
/// built once at startup and only consulted afterwards; beside the
/// registrations it carries the ghost history of every delivery it ever
/// made, over which routing correctness is stated.
pub struct Demultiplexor {
    registrations: Vec<Registration>,
    deliveries: Ghost<Seq<(int, ResultDocument)>>,
}

impl Demultiplexor {
    /// The registrations, in registration order.
    pub closed spec fn regs(self) -> Seq<Registration> {
        self.registrations@
    }

    /// Every delivery ever made: which registration received which document,
    /// in delivery order.
    pub closed spec fn deliveries(self) -> Seq<(int, ResultDocument)> {
        self.deliveries@
    }

    /// Whether this `(name, measurement)` pair is already registered.
    pub open spec fn registered(self, name: Seq<char>, measurement: Seq<char>) -> bool {
        reg_exists(self.regs(), name, measurement)
    }

    /// Every registration's measurement is non-empty, and no two
    /// registrations share a `(name, measurement)` pair.
    pub open spec fn wf(self) -> bool {
        &&& forall|i: int|
            0 <= i < self.regs().len() ==> (#[trigger] self.regs()[i]).measurement@.len() > 0
        &&& forall|i: int, j: int|
            0 <= i < j < self.regs().len() ==> !((#[trigger] self.regs()[i]).name@ == (
            #[trigger] self.regs()[j]).name@ && self.regs()[i].measurement@
                == self.regs()[j].measurement@)
    }

    /// Creates an empty registry.
    pub fn new() -> (d: Demultiplexor)
        ensures
            d.wf(),
            d.regs() == Seq::<Registration>::empty(),
            d.deliveries() == Seq::<(int, ResultDocument)>::empty(),
    {
        Demultiplexor { registrations: Vec::new(), deliveries: Ghost(Seq::empty()) }
    }

    /// Registers `analyzer` under `measurement`. Registration is rejected
    /// when the measurement name is empty, or when the same
    /// `(name, measurement)` pair is already registered — a duplicate is a
    /// configuration error, never silently overwritten.
    pub fn add_analyzer(&mut self, name: String, measurement: String, analyzer: Analyzer) -> (r:
        Result<(), TipupError>)
        requires
            old(self).wf(),
        ensures
            final(self).wf(),
            final(self).deliveries() == old(self).deliveries(),
            r is Ok <==> (measurement@.len() > 0 && !old(self).registered(name@, measurement@)),
            match r {
                Ok(_) => final(self).regs() == old(self).regs().push(
                    (Registration { name, measurement, analyzer }),
                ),
                Err(e) => final(self).regs() == old(self).regs() && (if measurement@.len() == 0 {
                    e == TipupError::EmptyMeasurement
                } else {
                    e == TipupError::DuplicateRegistration
                }),
            },
    {
        if measurement.as_str().is_empty() {
            return Err(TipupError::EmptyMeasurement);
        }
        let mut i: usize = 0;
        while i < self.registrations.len()
            invariant
                i <= self.regs().len(),
                self.wf(),
                *self == *old(self),
                forall|j: int|
                    0 <= j < i ==> !((#[trigger] self.regs()[j]).name@ == name@
                        && self.regs()[j].measurement@ == measurement@),
            decreases self.regs().len() - i,
        {
            if self.registrations[i].name == name && self.registrations[i].measurement
                == measurement {
                return Err(TipupError::DuplicateRegistration);
            }
            i = i + 1;
        }
        self.registrations.push(Registration { name, measurement, analyzer });
        Ok(())
    }

    /// Routes one document: every registration whose measurement equals the
    /// document's receives it, in registry order, whether or not another
    /// matching analyzer failed on it. A document nothing matches is
    /// silently dropped. Returns the first matching analyzer's error, if
    /// any.
    pub fn send_result(&mut self, doc: &ResultDocument, chan: &mut FlagChannel) -> (r: Result<
        (),
        TipupError,
    >)
        requires
            old(self).wf(),
            old(chan).wf(),
        ensures
            final(self).wf(),
            final(chan).wf(),
            final(self).regs() == old(self).regs(),
            final(self).deliveries() == old(self).deliveries() + dispatch_log(
                old(self).regs(),
                *doc,
            ),
            final(chan).sent() == old(chan).sent() + dispatch_emissions(old(self).regs(), *doc),
            final(chan).queued() == old(chan).queued() + dispatch_emissions(
                old(self).regs(),
                *doc,
            ),
            final(chan).delivered() == old(chan).delivered(),
            r == dispatch_verdict(old(self).regs(), *doc),
    {
        let ghost regs0 = self.regs();
        let ghost del0 = self.deliveries();
        let ghost sent0 = chan.sent();
        let ghost queued0 = chan.queued();
        let ghost delivered0 = chan.delivered();
        let mut verdict: Result<(), TipupError> = Ok(());
        let mut i: usize = 0;
        proof {
            assert(regs0.take(0) =~= Seq::<Registration>::empty());
            assert(del0 + dispatch_log(regs0.take(0), *doc) =~= del0);
            assert(sent0 + dispatch_emissions(regs0.take(0), *doc) =~= sent0);
            assert(queued0 + dispatch_emissions(regs0.take(0), *doc) =~= queued0);
        }
        while i < self.registrations.len()
            invariant
                i <= regs0.len(),
                self.regs() == regs0,
                self.wf(),
                chan.wf(),
                self.deliveries() == del0 + dispatch_log(regs0.take(i as int), *doc),
                chan.sent() == sent0 + dispatch_emissions(regs0.take(i as int), *doc),
                chan.queued() == queued0 + dispatch_emissions(regs0.take(i as int), *doc),
                chan.delivered() == delivered0,
                verdict == dispatch_verdict(regs0.take(i as int), *doc),
            decreases regs0.len() - i,
        {
            proof {
                assert(regs0.take(i + 1 as int).drop_last() =~= regs0.take(i as int));
                assert(regs0.take(i + 1 as int).last() == regs0[i as int]);
            }
            if self.registrations[i].measurement == doc.measurement {
                let v = self.registrations[i].analyzer.add_result(doc, chan);
                self.deliveries = Ghost(self.deliveries@.push((i as int, *doc)));
                if verdict.is_ok() {
                    verdict = v;
                }
                proof {
                    assert((del0 + dispatch_log(regs0.take(i as int), *doc)).push(
                        (i as int, *doc),
                    ) =~= del0 + dispatch_log(regs0.take(i + 1 as int), *doc));
                    assert((sent0 + dispatch_emissions(regs0.take(i as int), *doc))
                        + regs0[i as int].analyzer.emissions(*doc) =~= sent0 + dispatch_emissions(
                        regs0.take(i + 1 as int),
                        *doc,
                    ));
                    assert((queued0 + dispatch_emissions(regs0.take(i as int), *doc))
                        + regs0[i as int].analyzer.emissions(*doc) =~= queued0
                        + dispatch_emissions(regs0.take(i + 1 as int), *doc));
                }
            } else {
                proof {
                    assert(dispatch_log(regs0.take(i + 1 as int), *doc) == dispatch_log(
                        regs0.take(i as int),
                        *doc,
                    ));
                    assert(dispatch_emissions(regs0.take(i + 1 as int), *doc)
                        == dispatch_emissions(regs0.take(i as int), *doc));
                }
            }
            i = i + 1;
        }
        proof {
            assert(regs0.take(i as int) =~= regs0);
        }
        verdict
    }
}

/// Law: routing is exact. Dispatching one document delivers it to
/// registration `i` if and only if that registration's measurement equals
/// the document's; every delivery carries this document; no registration
/// receives it twice; and deliveries come in registry order.
pub proof fn lemma_routing_exact(regs: Seq<Registration>, doc: ResultDocument)
    ensures
        forall|i: int|
            0 <= i < regs.len() && routed(#[trigger] regs[i], doc) ==> dispatch_log(
                regs,
                doc,
            ).contains((i, doc)),
        forall|k: int|
            0 <= k < dispatch_log(regs, doc).len() ==> {
                let entry = #[trigger] dispatch_log(regs, doc)[k];
                0 <= entry.0 < regs.len() && routed(regs[entry.0], doc) && entry.1 == doc
            },
        forall|k1: int, k2: int|
            0 <= k1 < k2 < dispatch_log(regs, doc).len() ==> (#[trigger] dispatch_log(
                regs,
                doc,
            )[k1]).0 < (#[trigger] dispatch_log(regs, doc)[k2]).0,
    decreases regs.len(),
{
    if regs.len() > 0 {
        lemma_routing_exact(regs.drop_last(), doc);
        let pre = dispatch_log(regs.drop_last(), doc);
        let n = regs.len() - 1;
        assert(forall|i: int| 0 <= i < n ==> #[trigger] regs.drop_last()[i] == regs[i]);
        assert forall|i: int|
            0 <= i < regs.len() && routed(#[trigger] regs[i], doc) implies dispatch_log(
            regs,
            doc,
        ).contains((i, doc)) by {
            if i < n {
                assert(regs.drop_last()[i] == regs[i]);
                assert(pre.contains((i, doc)));
                let k = choose|k: int| 0 <= k < pre.len() && pre[k] == (i, doc);
                if routed(regs.last(), doc) {
                    assert(dispatch_log(regs, doc) == pre.push((n, doc)));
                    assert(dispatch_log(regs, doc)[k] == (i, doc));
                } else {
                    assert(dispatch_log(regs, doc) == pre);
                }
            } else {
                assert(dispatch_log(regs, doc) == pre.push((n, doc)));
                assert(dispatch_log(regs, doc)[pre.len() as int] == (i, doc));
            }
        }
    }
}

/// Law: analyzer isolation. Even when dispatching a document fails — some
/// matching analyzer rejected it — every matching registration is still
/// delivered the document, and a matching analyzer's flags are still sent.
pub proof fn lemma_isolation(regs: Seq<Registration>, doc: ResultDocument, i: int)
    requires
        0 <= i < regs.len(),
        routed(regs[i], doc),
        dispatch_verdict(regs, doc) is Err,
    ensures
        dispatch_log(regs, doc).contains((i, doc)),
        exists|a: Seq<Flag>, b: Seq<Flag>|
            dispatch_emissions(regs, doc) == a + regs[i].analyzer.emissions(doc) + b,
{
    lemma_routing_exact(regs, doc);
    lemma_emission_split(regs, doc, i);
}

/// Within the dispatch of one document, a matching registration's emissions
/// stand as one contiguous piece of everything sent.
proof fn lemma_emission_split(regs: Seq<Registration>, doc: ResultDocument, i: int)
    requires
        0 <= i < regs.len(),
        routed(regs[i], doc),
    ensures
        exists|a: Seq<Flag>, b: Seq<Flag>|
            dispatch_emissions(regs, doc) == a + regs[i].analyzer.emissions(doc) + b,
    decreases regs.len(),
{
    let n = regs.len() - 1;
    assert(forall|j: int| 0 <= j < n ==> #[trigger] regs.drop_last()[j] == regs[j]);
    if i == n {
        let a = dispatch_emissions(regs.drop_last(), doc);
        let b = Seq::<Flag>::empty();
        assert(dispatch_emissions(regs, doc) == a + regs[i].analyzer.emissions(doc) + b) by {
            assert(a + regs[i].analyzer.emissions(doc) + b =~= a + regs[i].analyzer.emissions(
                doc,
            ));
        }
    } else {
        lemma_emission_split(regs.drop_last(), doc, i);
        let pair = choose|a: Seq<Flag>, b: Seq<Flag>|
            dispatch_emissions(regs.drop_last(), doc) == a + regs[i].analyzer.emissions(doc) + b;
        let a = pair.0;
        let b = pair.1;
        if routed(regs.last(), doc) {
            assert(dispatch_emissions(regs, doc) == a + regs[i].analyzer.emissions(doc) + (b
                + regs.last().analyzer.emissions(doc))) by {
                assert(a + regs[i].analyzer.emissions(doc) + (b + regs.last().analyzer.emissions(
                    doc,
                )) =~= (a + regs[i].analyzer.emissions(doc) + b) + regs.last().analyzer.emissions(
                    doc,
                ));
            }
        }
    }
}

/// The documents delivered to one registration out of a delivery log, in
/// delivery order.
pub open spec fn deliveries_to(log: Seq<(int, ResultDocument)>, i: int) -> Seq<ResultDocument>
    decreases log.len(),
{
    if log.len() == 0 {
        Seq::empty()
    } else {
        let pre = deliveries_to(log.drop_last(), i);
        if log.last().0 == i {
            pre.push(log.last().1)
        } else {
            pre
        }
    }
}

/// A registration that no entry of a log names receives nothing from it.
pub proof fn lemma_deliveries_to_absent(log: Seq<(int, ResultDocument)>, i: int)
    requires
        forall|k: int| 0 <= k < log.len() ==> (#[trigger] log[k]).0 != i,
    ensures
        deliveries_to(log, i) == Seq::<ResultDocument>::empty(),
    decreases log.len(),
{
    if log.len() > 0 {
        assert(forall|k: int| 0 <= k < log.len() - 1 ==> #[trigger] log.drop_last()[k] == log[k]);
        lemma_deliveries_to_absent(log.drop_last(), i);
    }
}

/// One registration's deliveries distribute over splitting a log.
pub proof fn lemma_deliveries_to_add(a: Seq<(int, ResultDocument)>, b: Seq<(int, ResultDocument)>, i: int)
    ensures
        deliveries_to(a + b, i) == deliveries_to(a, i) + deliveries_to(b, i),
    decreases b.len(),
{
    if b.len() == 0 {
        assert(a + b =~= a);
        assert(deliveries_to(a, i) + deliveries_to(b, i) =~= deliveries_to(a, i));
    } else {
        lemma_deliveries_to_add(a, b.drop_last(), i);
        assert((a + b).drop_last() =~= a + b.drop_last());
        assert((a + b).last() == b.last());
        if b.last().0 == i {
            assert(deliveries_to(a, i) + deliveries_to(b.drop_last(), i).push(b.last().1)
                =~= (deliveries_to(a, i) + deliveries_to(b.drop_last(), i)).push(b.last().1));
        }
    }
}

/// Dispatching one document hands registration `i` exactly that document
/// when it matches, and nothing otherwise.
pub proof fn lemma_dispatch_deliveries(regs: Seq<Registration>, doc: ResultDocument, i: int)
    requires
        0 <= i < regs.len(),
    ensures
        deliveries_to(dispatch_log(regs, doc), i) == if routed(regs[i], doc) {
            seq![doc]
        } else {
            Seq::<ResultDocument>::empty()
        },
    decreases regs.len(),
{
    let n = regs.len() - 1;
    let pre_log = dispatch_log(regs.drop_last(), doc);
    lemma_routing_exact(regs.drop_last(), doc);
    assert(forall|j: int| 0 <= j < n ==> #[trigger] regs.drop_last()[j] == regs[j]);
    if i < n {
        lemma_dispatch_deliveries(regs.drop_last(), doc, i);
        if routed(regs.last(), doc) {
            assert(dispatch_log(regs, doc) == pre_log.push((n, doc)));
            assert(dispatch_log(regs, doc).drop_last() =~= pre_log);
        } else {
            assert(dispatch_log(regs, doc) == pre_log);
        }
    } else {
        assert(forall|k: int| 0 <= k < pre_log.len() ==> (#[trigger] pre_log[k]).0 != n);
        lemma_deliveries_to_absent(pre_log, n);
        if routed(regs.last(), doc) {
            assert(dispatch_log(regs, doc) == pre_log.push((n, doc)));
            assert(dispatch_log(regs, doc).drop_last() =~= pre_log);
            assert(deliveries_to(dispatch_log(regs, doc), n)
                == deliveries_to(pre_log, n).push(doc));
            assert(Seq::<ResultDocument>::empty().push(doc) =~= seq![doc]);
        } else {
            assert(dispatch_log(regs, doc) == pre_log);
        }
    }
}

/// Law: a document whose measurement no registration matches is a no-op.
/// Nothing is delivered, nothing is flagged, and dispatching succeeds.
pub proof fn lemma_unrouted_noop(regs: Seq<Registration>, doc: ResultDocument)
    requires
        forall|i: int| 0 <= i < regs.len() ==> !routed(#[trigger] regs[i], doc),
    ensures
        dispatch_log(regs, doc) == Seq::<(int, ResultDocument)>::empty(),
        dispatch_emissions(regs, doc) == Seq::<Flag>::empty(),
        dispatch_verdict(regs, doc) == Ok::<(), TipupError>(()),
    decreases regs.len(),
{
    if regs.len() > 0 {
        assert(forall|i: int| 0 <= i < regs.len() - 1 ==> #[trigger] regs.drop_last()[i]
            == regs[i]);
        lemma_unrouted_noop(regs.drop_last(), doc);
    }
}

} // verus!
