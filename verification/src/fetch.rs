use vstd::prelude::*;

use crate::demultiplexor::{dispatch_emissions, dispatch_log, dispatch_verdict, Demultiplexor};
use crate::document::ResultDocument;
use crate::error::TipupError;
use crate::flag_manager::{Flag, FlagChannel};

verus! {

/// One host's watermark: the newest result timestamp already processed.
pub struct HostCursor {
    pub hostname: String,
    pub timestamp: i64,
}

/// The cursor of `host` among `entries`: its entry's timestamp, or 0 for a
/// host never seen — 0 means "fetch everything".
pub open spec fn cursor_in(entries: Seq<HostCursor>, host: Seq<char>) -> int
    decreases entries.len(),
{
    if entries.len() == 0 {
        0
    } else if entries[0].hostname@ == host {
        entries[0].timestamp as int
    } else {
        cursor_in(entries.drop_first(), host)
    }
}

/// The per-host cursors: for every known host, the newest result timestamp
/// already processed. A host without an entry has cursor 0.
pub struct HostCursors {
    cursors: Vec<HostCursor>,
}

impl HostCursors {
    /// The entries, one per known host.
    pub closed spec fn entries(self) -> Seq<HostCursor> {
        self.cursors@
    }

    /// The cursor of `host`.
    pub open spec fn cursor_of(self, host: Seq<char>) -> int {
        cursor_in(self.entries(), host)
    }

    /// No host has two entries.
    pub open spec fn wf(self) -> bool {
        forall|i: int, j: int|
            0 <= i < j < self.entries().len() ==> (#[trigger] self.entries()[i]).hostname@ != (
            #[trigger] self.entries()[j]).hostname@
    }

    /// Creates a cursor table where every host is unseen.
    pub fn new() -> (c: HostCursors)
        ensures
            c.wf(),
            forall|h: Seq<char>| #[trigger] c.cursor_of(h) == 0,
    {
        HostCursors { cursors: Vec::new() }
    }

    /// Reads one host's cursor.
    pub fn get(&self, hostname: &String) -> (t: i64)
        ensures
            t as int == self.cursor_of(hostname@),
    {
        let mut i: usize = 0;
        proof {
            assert(self.entries().skip(0) =~= self.entries());
        }
        while i < self.cursors.len()
            invariant
                i <= self.entries().len(),
                cursor_in(self.entries(), hostname@) == cursor_in(
                    self.entries().skip(i as int),
                    hostname@,
                ),
            decreases self.entries().len() - i,
        {
            proof {
                assert(self.entries().skip(i as int)[0] == self.entries()[i as int]);
            }
            if self.cursors[i].hostname == *hostname {
                return self.cursors[i].timestamp;
            }
            proof {
                assert(self.entries().skip(i as int).drop_first() =~= self.entries().skip(
                    i + 1 as int,
                ));
            }
            i = i + 1;
        }
        0
    }

    /// Advances one host's cursor to `timestamp` unless it is already at
    /// least that far: a cursor never moves backwards.
    #[verifier::loop_isolation(false)]
    pub fn advance(&mut self, hostname: &String, timestamp: i64)
        requires
            old(self).wf(),
        ensures
            final(self).wf(),
            final(self).cursor_of(hostname@) == if timestamp as int > old(self).cursor_of(
                hostname@,
            ) {
                timestamp as int
            } else {
                old(self).cursor_of(hostname@)
            },
            forall|h: Seq<char>|
                h != hostname@ ==> #[trigger] final(self).cursor_of(h) == old(self).cursor_of(h),
    {
        let ghost entries0 = self.entries();
        let mut i: usize = 0;
        proof {
            assert(entries0.skip(0) =~= entries0);
        }
        while i < self.cursors.len()
            invariant
                i <= entries0.len(),
                self.entries() == entries0,
                self.wf(),
                cursor_in(entries0, hostname@) == cursor_in(entries0.skip(i as int), hostname@),
                forall|j: int| 0 <= j < i ==> (#[trigger] entries0[j]).hostname@ != hostname@,
            decreases entries0.len() - i,
        {
            proof {
                assert(entries0.skip(i as int)[0] == entries0[i as int]);
            }
            if self.cursors[i].hostname == *hostname {
                proof {
                    assert(cursor_in(entries0.skip(i as int), hostname@) == entries0[i as int].timestamp as int);
                }
                if timestamp > self.cursors[i].timestamp {
                    let entry = HostCursor { hostname: self.cursors[i].hostname.clone(), timestamp };
                    proof {
                        assert(entry.hostname@ == entries0[i as int].hostname@);
                    }
                    self.cursors[i] = entry;
                    proof {
                        assert(self.entries() =~= entries0.update(i as int, entry));
                        lemma_cursor_update(entries0, i as int, entry, hostname@);
                        assert forall|h: Seq<char>| h != hostname@ implies #[trigger] cursor_in(
                            self.entries(),
                            h,
                        ) == cursor_in(entries0, h) by {
                            lemma_cursor_update(entries0, i as int, entry, h);
                        }
                        assert forall|k1: int, k2: int|
                            0 <= k1 < k2 < self.entries().len() implies (
                        #[trigger] self.entries()[k1]).hostname@ != (
                        #[trigger] self.entries()[k2]).hostname@ by {
                            assert(entries0[k1].hostname@ != entries0[k2].hostname@);
                            assert(self.entries()[k1].hostname@ == entries0[k1].hostname@);
                            assert(self.entries()[k2].hostname@ == entries0[k2].hostname@);
                        }
                    }
                }
                return ;
            }
            proof {
                assert(entries0.skip(i as int).drop_first() =~= entries0.skip(i + 1 as int));
            }
            i = i + 1;
        }
        if timestamp > 0 {
            let entry = HostCursor { hostname: hostname.clone(), timestamp };
            proof {
                lemma_cursor_push(entries0, entry, hostname@);
                assert forall|h: Seq<char>| h != hostname@ implies cursor_in(
                    entries0.push(entry),
                    h,
                ) == cursor_in(entries0, h) by {
                    lemma_cursor_push(entries0, entry, h);
                }
            }
            self.cursors.push(entry);
        }
    }
}

/// Updating the entry of a host changes that host's cursor and no other,
/// provided the host had no earlier entry.
proof fn lemma_cursor_update(entries: Seq<HostCursor>, i: int, e: HostCursor, h: Seq<char>)
    requires
        0 <= i < entries.len(),
        e.hostname@ == entries[i].hostname@,
        forall|j: int| 0 <= j < i ==> (#[trigger] entries[j]).hostname@ != entries[i].hostname@,
    ensures
        cursor_in(entries.update(i, e), h) == if h == entries[i].hostname@ {
            e.timestamp as int
        } else {
            cursor_in(entries, h)
        },
    decreases entries.len(),
{
    let updated = entries.update(i, e);
    if i == 0 {
        assert(updated[0] == e);
        if h != e.hostname@ {
            assert(updated.drop_first() =~= entries.drop_first());
        }
    } else {
        assert(updated[0] == entries[0]);
        if entries[0].hostname@ == h {
        } else {
            assert(updated.drop_first() =~= entries.drop_first().update(i - 1, e));
            assert(forall|j: int|
                0 <= j < i - 1 ==> (#[trigger] entries.drop_first()[j]).hostname@ != entries[i].hostname@);
            assert(entries.drop_first()[i - 1] == entries[i]);
            lemma_cursor_update(entries.drop_first(), i - 1, e, h);
        }
    }
}

/// Appending an entry for a host not yet present sets that host's cursor
/// and changes no other.
proof fn lemma_cursor_push(entries: Seq<HostCursor>, e: HostCursor, h: Seq<char>)
    requires
        forall|j: int| 0 <= j < entries.len() ==> (#[trigger] entries[j]).hostname@ != e.hostname@,
    ensures
        cursor_in(entries.push(e), h) == if h == e.hostname@ {
            e.timestamp as int
        } else {
            cursor_in(entries, h)
        },
    decreases entries.len(),
{
    let appended = entries.push(e);
    if entries.len() == 0 {
        assert(appended[0] == e);
        if h != e.hostname@ {
            assert(appended.drop_first() =~= Seq::<HostCursor>::empty());
            assert(cursor_in(Seq::<HostCursor>::empty(), h) == 0);
            assert(cursor_in(entries, h) == 0);
        }
    } else {
        assert(appended[0] == entries[0]);
        if entries[0].hostname@ == h {
        } else {
            assert(appended.drop_first() =~= entries.drop_first().push(e));
            assert(forall|j: int|
                0 <= j < entries.len() - 1 ==> #[trigger] entries.drop_first()[j]
                    == entries[j + 1]);
            lemma_cursor_push(entries.drop_first(), e, h);
        }
    }
}

/// Whether a document belongs to a fetch for `host` with cursor `cursor`:
/// it is the host's own, and at or after the cursor — the lower bound is
/// inclusive, so the boundary document is fetched again until the cursor
/// moves past it.
pub open spec fn selects(host: Seq<char>, cursor: int) -> spec_fn(ResultDocument) -> bool {
    |d: ResultDocument| d.hostname@ == host && d.timestamp as int >= cursor
}

/// The documents a fetch for `host` with cursor `cursor` returns out of a
/// store snapshot, in store order.
pub open spec fn new_results(store: Seq<ResultDocument>, host: Seq<char>, cursor: int) -> Seq<
    ResultDocument,
> {
    store.filter(selects(host, cursor))
}

/// Selects one host's not-yet-processed documents out of a store snapshot:
/// those of `hostname` with a timestamp at or after `cursor`, in store
/// order.
pub fn select_new_results(store: Vec<ResultDocument>, hostname: &String, cursor: i64) -> (r: Vec<
    ResultDocument,
>)
    ensures
        r@ == new_results(store@, hostname@, cursor as int),
{
    let mut remaining = store;
    let ghost store0 = remaining@;
    let mut out: Vec<ResultDocument> = Vec::new();
    let ghost mut n: int = 0;
    proof {
        reveal(Seq::filter);
        assert(store0.skip(0) =~= store0);
        assert(store0.take(0) =~= Seq::<ResultDocument>::empty());
        assert(out@ =~= store0.take(0).filter(selects(hostname@, cursor as int)));
    }
    while remaining.len() > 0
        invariant
            0 <= n <= store0.len(),
            remaining@ == store0.skip(n),
            out@ == store0.take(n).filter(selects(hostname@, cursor as int)),
        decreases remaining@.len(),
    {
        proof {
            assert(store0.skip(n)[0] == store0[n]);
        }
        let d = remaining.remove(0);
        let keep = d.hostname == *hostname && d.timestamp >= cursor;
        if keep {
            out.push(d);
        }
        proof {
            reveal(Seq::filter);
            let pred = selects(hostname@, cursor as int);
            assert(store0.skip(n).drop_first() =~= store0.skip(n + 1));
            assert(store0.take(n + 1).drop_last() =~= store0.take(n));
            assert(store0.take(n + 1).last() == store0[n]);
            assert(d == store0[n]);
            assert(keep == pred(store0[n]));
            if keep {
                assert(store0.take(n + 1).filter(pred) == store0.take(n).filter(pred).push(
                    store0[n],
                ));
            } else {
                assert(store0.take(n + 1).filter(pred) == store0.take(n).filter(pred));
            }
            n = n + 1;
        }
    }
    proof {
        assert(store0.take(n) =~= store0);
    }
    out
}

/// The deliveries a whole batch of documents produces, document by document
/// in batch order.
pub open spec fn cycle_log(
    regs: Seq<crate::demultiplexor::Registration>,
    docs: Seq<ResultDocument>,
) -> Seq<(int, ResultDocument)>
    decreases docs.len(),
{
    if docs.len() == 0 {
        Seq::empty()
    } else {
        cycle_log(regs, docs.drop_last()) + dispatch_log(regs, docs.last())
    }
}

/// The flags a whole batch of documents sends, in send order.
pub open spec fn cycle_emissions(
    regs: Seq<crate::demultiplexor::Registration>,
    docs: Seq<ResultDocument>,
) -> Seq<Flag>
    decreases docs.len(),
{
    if docs.len() == 0 {
        Seq::empty()
    } else {
        cycle_emissions(regs, docs.drop_last()) + dispatch_emissions(regs, docs.last())
    }
}

/// The outcome of dispatching a whole batch: success, or the first
/// analyzer error met. A failure never stops later documents from being
/// dispatched.
pub open spec fn cycle_verdict(
    regs: Seq<crate::demultiplexor::Registration>,
    docs: Seq<ResultDocument>,
) -> Result<(), TipupError>
    decreases docs.len(),
{
    if docs.len() == 0 {
        Ok(())
    } else {
        let pre = cycle_verdict(regs, docs.drop_last());
        if pre is Err {
            pre
        } else {
            dispatch_verdict(regs, docs.last())
        }
    }
}

/// The cursor after processing a batch: the newest timestamp among the
/// batch and the cursor before it — never below where it started.
pub open spec fn max_timestamp(docs: Seq<ResultDocument>, floor: int) -> int
    decreases docs.len(),
{
    if docs.len() == 0 {
        floor
    } else {
        let pre = max_timestamp(docs.drop_last(), floor);
        if docs.last().timestamp as int > pre {
            docs.last().timestamp as int
        } else {
            pre
        }
    }
}

/// One host's poll step after the fetch: every fetched document is handed
/// to the demultiplexor in fetch order, and the host's cursor is advanced
/// to the newest timestamp processed. An analyzer failure is reported but
/// stops neither the remaining documents nor the cursor update — the
/// documents were delivered. A batch of zero documents leaves the cursor
/// untouched.
#[verifier::loop_isolation(false)]
pub fn process_host_results(
    demux: &mut Demultiplexor,
    cursors: &mut HostCursors,
    hostname: &String,
    docs: &Vec<ResultDocument>,
    chan: &mut FlagChannel,
) -> (r: Result<(), TipupError>)
    requires
        old(demux).wf(),
        old(cursors).wf(),
        old(chan).wf(),
    ensures
        final(demux).wf(),
        final(cursors).wf(),
        final(chan).wf(),
        final(demux).regs() == old(demux).regs(),
        final(demux).deliveries() == old(demux).deliveries() + cycle_log(
            old(demux).regs(),
            docs@,
        ),
        final(chan).sent() == old(chan).sent() + cycle_emissions(old(demux).regs(), docs@),
        final(chan).queued() == old(chan).queued() + cycle_emissions(old(demux).regs(), docs@),
        final(chan).delivered() == old(chan).delivered(),
        final(cursors).cursor_of(hostname@) == max_timestamp(
            docs@,
            old(cursors).cursor_of(hostname@),
        ),
        forall|h: Seq<char>|
            h != hostname@ ==> #[trigger] final(cursors).cursor_of(h) == old(cursors).cursor_of(h),
        r == cycle_verdict(old(demux).regs(), docs@),
{
    let ghost regs0 = demux.regs();
    let ghost c0 = cursors.cursor_of(hostname@);
    let mut verdict: Result<(), TipupError> = Ok(());
    let mut i: usize = 0;
    proof {
        assert(docs@.take(0) =~= Seq::<ResultDocument>::empty());
        assert(old(demux).deliveries() + cycle_log(regs0, docs@.take(0)) =~= old(
            demux,
        ).deliveries());
        assert(old(chan).sent() + cycle_emissions(regs0, docs@.take(0)) =~= old(chan).sent());
        assert(old(chan).queued() + cycle_emissions(regs0, docs@.take(0)) =~= old(chan).queued());
    }
    while i < docs.len()
        invariant
            i <= docs@.len(),
            demux.wf(),
            cursors.wf(),
            chan.wf(),
            demux.regs() == regs0,
            demux.deliveries() == old(demux).deliveries() + cycle_log(regs0, docs@.take(i as int)),
            chan.sent() == old(chan).sent() + cycle_emissions(regs0, docs@.take(i as int)),
            chan.queued() == old(chan).queued() + cycle_emissions(regs0, docs@.take(i as int)),
            chan.delivered() == old(chan).delivered(),
            cursors.cursor_of(hostname@) == max_timestamp(docs@.take(i as int), c0),
            forall|h: Seq<char>|
                h != hostname@ ==> #[trigger] cursors.cursor_of(h) == old(cursors).cursor_of(h),
            verdict == cycle_verdict(regs0, docs@.take(i as int)),
        decreases docs@.len() - i,
    {
        proof {
            assert(docs@.take(i + 1 as int).drop_last() =~= docs@.take(i as int));
            assert(docs@.take(i + 1 as int).last() == docs@[i as int]);
        }
        let ghost del_before = demux.deliveries();
        let ghost sent_before = chan.sent();
        let ghost queued_before = chan.queued();
        let v = demux.send_result(&docs[i], chan);
        cursors.advance(hostname, docs[i].timestamp);
        if verdict.is_ok() {
            verdict = v;
        }
        proof {
            assert(del_before + dispatch_log(regs0, docs@[i as int]) =~= old(demux).deliveries()
                + cycle_log(regs0, docs@.take(i + 1 as int)));
            assert(sent_before + dispatch_emissions(regs0, docs@[i as int]) =~= old(chan).sent()
                + cycle_emissions(regs0, docs@.take(i + 1 as int)));
            assert(queued_before + dispatch_emissions(regs0, docs@[i as int]) =~= old(
                chan,
            ).queued() + cycle_emissions(regs0, docs@.take(i + 1 as int)));
        }
        i = i + 1;
    }
    proof {
        assert(docs@.take(i as int) =~= docs@);
    }
    verdict
}

/// The documents of a batch whose measurement a registration matches, in
/// batch order.
pub open spec fn routed_docs(
    reg: crate::demultiplexor::Registration,
    docs: Seq<ResultDocument>,
) -> Seq<ResultDocument>
    decreases docs.len(),
{
    if docs.len() == 0 {
        Seq::empty()
    } else {
        let pre = routed_docs(reg, docs.drop_last());
        if crate::demultiplexor::routed(reg, docs.last()) {
            pre.push(docs.last())
        } else {
            pre
        }
    }
}

/// Law: per-analyzer delivery over a whole cycle. Each registration
/// receives exactly the batch's documents whose measurement matches its
/// own, in batch order — every matching document once, no document twice,
/// and no reordering relative to the order the batch was handed in.
pub proof fn lemma_cycle_per_analyzer_order(
    regs: Seq<crate::demultiplexor::Registration>,
    docs: Seq<ResultDocument>,
    i: int,
)
    requires
        0 <= i < regs.len(),
    ensures
        crate::demultiplexor::deliveries_to(cycle_log(regs, docs), i) == routed_docs(
            regs[i],
            docs,
        ),
    decreases docs.len(),
{
    if docs.len() == 0 {
    } else {
        lemma_cycle_per_analyzer_order(regs, docs.drop_last(), i);
        crate::demultiplexor::lemma_deliveries_to_add(
            cycle_log(regs, docs.drop_last()),
            dispatch_log(regs, docs.last()),
            i,
        );
        crate::demultiplexor::lemma_dispatch_deliveries(regs, docs.last(), i);
        if crate::demultiplexor::routed(regs[i], docs.last()) {
            assert(routed_docs(regs[i], docs.drop_last()) + seq![docs.last()] =~= routed_docs(
                regs[i],
                docs.drop_last(),
            ).push(docs.last()));
        } else {
            assert(routed_docs(regs[i], docs.drop_last()) + Seq::<ResultDocument>::empty()
                =~= routed_docs(regs[i], docs.drop_last()));
        }
    }
}

/// Law: cursor monotonicity. After a fetch and dispatch cycle the cursor is
/// never below where it started, and not below the timestamp of any
/// document delivered that cycle.
pub proof fn lemma_cursor_monotonic(docs: Seq<ResultDocument>, cursor: int)
    ensures
        max_timestamp(docs, cursor) >= cursor,
        forall|k: int|
            0 <= k < docs.len() ==> max_timestamp(docs, cursor) >= (
            #[trigger] docs[k]).timestamp as int,
    decreases docs.len(),
{
    if docs.len() > 0 {
        lemma_cursor_monotonic(docs.drop_last(), cursor);
        assert forall|k: int|
            0 <= k < docs.len() implies max_timestamp(docs, cursor) >= (
        #[trigger] docs[k]).timestamp as int by {
            if k < docs.len() - 1 {
                assert(docs.drop_last()[k] == docs[k]);
                assert(max_timestamp(docs.drop_last(), cursor) >= docs[k].timestamp as int);
            } else {
                assert(docs[k] == docs.last());
            }
        }
    }
}

/// Law: the lower bound is inclusive. A document of the fetched host whose
/// timestamp equals the cursor — or lies after it — is fetched.
pub proof fn lemma_inclusive_boundary(
    store: Seq<ResultDocument>,
    host: Seq<char>,
    cursor: int,
    k: int,
)
    requires
        0 <= k < store.len(),
        store[k].hostname@ == host,
        store[k].timestamp as int >= cursor,
    ensures
        new_results(store, host, cursor).contains(store[k]),
{
    store.lemma_filter_contains(selects(host, cursor), k);
}

/// Law: no redelivery past the cursor. Once a host's cursor lies after a
/// document's timestamp, no fetch for that host returns the document again.
pub proof fn lemma_no_redelivery(
    store: Seq<ResultDocument>,
    host: Seq<char>,
    cursor: int,
    d: ResultDocument,
)
    requires
        (d.timestamp as int) < cursor,
    ensures
        new_results(store, host, cursor).contains(d) == false,
{
    let fetched = new_results(store, host, cursor);
    if fetched.contains(d) {
        let idx = choose|idx: int| 0 <= idx < fetched.len() && fetched[idx] == d;
        store.lemma_filter_pred(selects(host, cursor), idx);
    }
}

/// Law: the boundary document is not reprocessed. With the cursor at `t`, a
/// cycle whose batch holds a document newer than `t` moves the cursor past
/// `t`, so a document sitting exactly at the boundary is not fetched again.
/// (When the boundary document is itself the newest the batch holds, the
/// cursor stays at `t` and the inclusive bound fetches it once more.)
pub proof fn lemma_boundary_not_reprocessed(
    store: Seq<ResultDocument>,
    host: Seq<char>,
    docs: Seq<ResultDocument>,
    t: int,
    d: ResultDocument,
)
    requires
        d.timestamp as int == t,
        exists|k: int| 0 <= k < docs.len() && (#[trigger] docs[k]).timestamp as int > t,
    ensures
        new_results(store, host, max_timestamp(docs, t)).contains(d) == false,
{
    let k = choose|k: int| 0 <= k < docs.len() && (#[trigger] docs[k]).timestamp as int > t;
    lemma_cursor_monotonic(docs, t);
    assert(max_timestamp(docs, t) >= docs[k].timestamp as int);
    lemma_no_redelivery(store, host, max_timestamp(docs, t), d);
}

} // verus!
