use vstd::prelude::*;

use crate::food::Food;
use crate::sources::bam::RowError;

verus! {

/// Fixed-size contiguous chunks of a sequence, in order: every chunk holds
/// `cs` elements except the last, which holds the remainder.
pub open spec fn spec_chunks<A>(s: Seq<A>, cs: int) -> Seq<Seq<A>>
    decreases s.len(),
    when cs >= 1
{
    if s.len() == 0 {
        Seq::empty()
    } else if s.len() <= cs {
        seq![s]
    } else {
        seq![s.take(cs)] + spec_chunks(s.skip(cs), cs)
    }
}

/// The records of the rows that parsed, in order.
pub open spec fn successes(s: Seq<Result<Food, RowError>>) -> Seq<Food>
    decreases s.len(),
{
    if s.len() == 0 {
        Seq::empty()
    } else {
        successes(s.drop_last()) + match s.last() {
            Ok(f) => seq![f],
            Err(_) => Seq::empty(),
        }
    }
}

/// The errors of the rows that did not parse, in order.
pub open spec fn failures(s: Seq<Result<Food, RowError>>) -> Seq<RowError>
    decreases s.len(),
{
    if s.len() == 0 {
        Seq::empty()
    } else {
        failures(s.drop_last()) + match s.last() {
            Ok(_) => Seq::empty(),
            Err(e) => seq![e],
        }
    }
}

/// Per chunk, the records that parsed, chunks with none dropped: each entry
/// is one non-empty unit of work for the persistence gateway.
pub open spec fn chunk_successes(chunks: Seq<Seq<Result<Food, RowError>>>) -> Seq<Seq<Food>>
    decreases chunks.len(),
{
    if chunks.len() == 0 {
        Seq::empty()
    } else {
        chunk_successes(chunks.drop_last()) + if successes(chunks.last()).len() > 0 {
            seq![successes(chunks.last())]
        } else {
            Seq::<Seq<Food>>::empty()
        }
    }
}

/// The failures of a chunked sequence, chunk by chunk.
pub open spec fn chunk_failures(chunks: Seq<Seq<Result<Food, RowError>>>) -> Seq<RowError>
    decreases chunks.len(),
{
    if chunks.len() == 0 {
        Seq::empty()
    } else {
        chunk_failures(chunks.drop_last()) + failures(chunks.last())
    }
}

/// Chunking keeps every element: the number of chunks is the length divided
/// by the chunk size rounded up, and concatenating the chunks gives the
/// original ordered sequence back exactly.
pub proof fn lemma_chunks_round_trip<A>(s: Seq<A>, cs: int)
    requires
        cs >= 1,
    ensures
        spec_chunks(s, cs).len() == (s.len() + cs - 1) / cs,
        spec_chunks(s, cs).flatten() == s,
    decreases s.len(),
{
    if s.len() == 0 {
        assert(spec_chunks(s, cs).flatten() =~= s);
        assert((s.len() + cs - 1) / cs == 0) by (nonlinear_arith)
            requires
                cs >= 1,
                s.len() == 0,
        ;
    } else if s.len() <= cs {
        assert(seq![s].drop_first() =~= Seq::<Seq<A>>::empty());
        assert(seq![s].first() == s);
        assert(Seq::<Seq<A>>::empty().flatten() =~= Seq::<A>::empty());
        assert(s + Seq::<A>::empty() =~= s);
        assert(seq![s].flatten() =~= s);
        assert((s.len() + cs - 1) / cs == 1) by (nonlinear_arith)
            requires
                cs >= 1,
                1 <= s.len() <= cs,
        ;
    } else {
        let rest = spec_chunks(s.skip(cs), cs);
        lemma_chunks_round_trip(s.skip(cs), cs);
        assert((seq![s.take(cs)] + rest).drop_first() =~= rest);
        assert((seq![s.take(cs)] + rest).first() == s.take(cs));
        assert((seq![s.take(cs)] + rest).flatten() =~= s.take(cs) + rest.flatten());
        assert(s.take(cs) + s.skip(cs) =~= s);
        assert((s.len() + cs - 1) / cs == 1 + (s.len() - cs + cs - 1) / cs) by (nonlinear_arith)
            requires
                cs >= 1,
                s.len() > cs,
        ;
    }
}

proof fn lemma_failures_append(a: Seq<Result<Food, RowError>>, b: Seq<Result<Food, RowError>>)
    ensures
        failures(a + b) == failures(a) + failures(b),
    decreases b.len(),
{
    if b.len() == 0 {
        assert(a + b =~= a);
        assert(failures(a) + failures(b) =~= failures(a));
    } else {
        lemma_failures_append(a, b.drop_last());
        assert((a + b).drop_last() =~= a + b.drop_last());
        assert(failures(a) + failures(b.drop_last()) + (match b.last() {
            Ok(_) => Seq::<RowError>::empty(),
            Err(e) => seq![e],
        }) =~= failures(a) + failures(b));
    }
}

proof fn lemma_chunk_failures_append(
    a: Seq<Seq<Result<Food, RowError>>>,
    b: Seq<Seq<Result<Food, RowError>>>,
)
    ensures
        chunk_failures(a + b) == chunk_failures(a) + chunk_failures(b),
    decreases b.len(),
{
    if b.len() == 0 {
        assert(a + b =~= a);
        assert(chunk_failures(a) + chunk_failures(b) =~= chunk_failures(a));
    } else {
        lemma_chunk_failures_append(a, b.drop_last());
        assert((a + b).drop_last() =~= a + b.drop_last());
        assert(chunk_failures(a) + chunk_failures(b.drop_last()) + failures(b.last())
            =~= chunk_failures(a) + chunk_failures(b));
    }
}

/// Collecting failures chunk by chunk reports exactly the failures of the
/// whole stream, in order.
pub proof fn lemma_chunk_failures_complete(s: Seq<Result<Food, RowError>>, cs: int)
    requires
        cs >= 1,
    ensures
        chunk_failures(spec_chunks(s, cs)) == failures(s),
    decreases s.len(),
{
    if s.len() == 0 {
    } else if s.len() <= cs {
        assert(seq![s].drop_last() =~= Seq::<Seq<Result<Food, RowError>>>::empty());
        assert(seq![s].last() == s);
        assert(chunk_failures(Seq::<Seq<Result<Food, RowError>>>::empty())
            =~= Seq::<RowError>::empty());
        assert(Seq::<RowError>::empty() + failures(s) =~= failures(s));
        assert(chunk_failures(seq![s]) =~= failures(s));
    } else {
        let rest = spec_chunks(s.skip(cs), cs);
        lemma_chunk_failures_complete(s.skip(cs), cs);
        lemma_chunk_failures_append(seq![s.take(cs)], rest);
        assert(seq![s.take(cs)].drop_last() =~= Seq::<Seq<Result<Food, RowError>>>::empty());
        assert(seq![s.take(cs)].last() == s.take(cs));
        assert(chunk_failures(Seq::<Seq<Result<Food, RowError>>>::empty())
            =~= Seq::<RowError>::empty());
        assert(Seq::<RowError>::empty() + failures(s.take(cs)) =~= failures(s.take(cs)));
        assert(chunk_failures(seq![s.take(cs)]) =~= failures(s.take(cs)));
        lemma_failures_append(s.take(cs), s.skip(cs));
        assert(s.take(cs) + s.skip(cs) =~= s);
    }
}

proof fn lemma_successes_append(a: Seq<Result<Food, RowError>>, b: Seq<Result<Food, RowError>>)
    ensures
        successes(a + b) == successes(a) + successes(b),
    decreases b.len(),
{
    if b.len() == 0 {
        assert(a + b =~= a);
        assert(successes(a) + successes(b) =~= successes(a));
    } else {
        lemma_successes_append(a, b.drop_last());
        assert((a + b).drop_last() =~= a + b.drop_last());
        assert(successes(a) + successes(b.drop_last()) + (match b.last() {
            Ok(f) => seq![f],
            Err(_) => Seq::<Food>::empty(),
        }) =~= successes(a) + successes(b));
    }
}

proof fn lemma_chunk_successes_append(
    a: Seq<Seq<Result<Food, RowError>>>,
    b: Seq<Seq<Result<Food, RowError>>>,
)
    ensures
        chunk_successes(a + b) == chunk_successes(a) + chunk_successes(b),
    decreases b.len(),
{
    if b.len() == 0 {
        assert(a + b =~= a);
        assert(chunk_successes(a) + chunk_successes(b) =~= chunk_successes(a));
    } else {
        lemma_chunk_successes_append(a, b.drop_last());
        assert((a + b).drop_last() =~= a + b.drop_last());
        assert(chunk_successes(a) + chunk_successes(b.drop_last()) + (if successes(
            b.last(),
        ).len() > 0 {
            seq![successes(b.last())]
        } else {
            Seq::<Seq<Food>>::empty()
        }) =~= chunk_successes(a) + chunk_successes(b));
    }
}

proof fn lemma_chunk_successes_one(c: Seq<Result<Food, RowError>>)
    ensures
        chunk_successes(seq![c]).flatten() == successes(c),
{
    assert(seq![c].drop_last() =~= Seq::<Seq<Result<Food, RowError>>>::empty());
    assert(seq![c].last() == c);
    assert(chunk_successes(Seq::<Seq<Result<Food, RowError>>>::empty())
        =~= Seq::<Seq<Food>>::empty());
    if successes(c).len() > 0 {
        assert(Seq::<Seq<Food>>::empty() + seq![successes(c)] =~= seq![successes(c)]);
        assert(chunk_successes(seq![c]) =~= seq![successes(c)]);
        assert(seq![successes(c)].drop_first() =~= Seq::<Seq<Food>>::empty());
        assert(seq![successes(c)].first() == successes(c));
        assert(Seq::<Seq<Food>>::empty().flatten() =~= Seq::<Food>::empty());
        assert(successes(c) + Seq::<Food>::empty() =~= successes(c));
        assert(seq![successes(c)].flatten() =~= successes(c));
    } else {
        assert(chunk_successes(seq![c]) =~= Seq::<Seq<Food>>::empty());
        assert(Seq::<Seq<Food>>::empty().flatten() =~= Seq::<Food>::empty());
        assert(successes(c) =~= Seq::<Food>::empty());
    }
}

/// Best-effort insertion loses nothing and invents nothing: concatenating
/// the per-chunk insert units yields exactly the records of the rows that
/// parsed, in their original order, whatever the chunk size and however
/// failures are spread through the stream.
pub proof fn lemma_inserts_round_trip(s: Seq<Result<Food, RowError>>, cs: int)
    requires
        cs >= 1,
    ensures
        chunk_successes(spec_chunks(s, cs)).flatten() == successes(s),
    decreases s.len(),
{
    if s.len() == 0 {
        assert(chunk_successes(spec_chunks(s, cs)).flatten() =~= successes(s));
    } else if s.len() <= cs {
        lemma_chunk_successes_one(s);
    } else {
        let rest = spec_chunks(s.skip(cs), cs);
        lemma_inserts_round_trip(s.skip(cs), cs);
        lemma_chunk_successes_append(seq![s.take(cs)], rest);
        vstd::seq_lib::lemma_flatten_concat(
            chunk_successes(seq![s.take(cs)]),
            chunk_successes(rest),
        );
        lemma_chunk_successes_one(s.take(cs));
        lemma_successes_append(s.take(cs), s.skip(cs));
        assert(s.take(cs) + s.skip(cs) =~= s);
    }
}

/// Splits the row stream into fixed-size chunks, in order.
pub fn chunk_records(rows: Vec<Result<Food, RowError>>, chunk_size: usize) -> (r: Vec<
    Vec<Result<Food, RowError>>,
>)
    requires
        chunk_size >= 1,
    ensures
        r@.map_values(|c: Vec<Result<Food, RowError>>| c@) == spec_chunks(
            rows@,
            chunk_size as int,
        ),
{
    let ghost all = rows@;
    let mut rest = rows;
    let mut r: Vec<Vec<Result<Food, RowError>>> = Vec::new();
    while rest.len() > 0
        invariant
            chunk_size >= 1,
            spec_chunks(all, chunk_size as int) =~= r@.map_values(
                |c: Vec<Result<Food, RowError>>| c@,
            ) + spec_chunks(rest@, chunk_size as int),
        decreases rest.len(),
    {
        let ghost before = rest@;
        let take_n = if rest.len() > chunk_size {
            chunk_size
        } else {
            rest.len()
        };
        let mut chunk: Vec<Result<Food, RowError>> = Vec::new();
        let mut k: usize = 0;
        while k < take_n
            invariant
                k <= take_n,
                take_n <= before.len(),
                chunk@ =~= before.take(k as int),
                rest@ =~= before.skip(k as int),
            decreases take_n - k,
        {
            let x = rest.remove(0);
            chunk.push(x);
            proof {
                assert(before.skip(k as int)[0] == before[k as int]);
                assert(before.skip(k as int).remove(0) =~= before.skip(k + 1));
                assert(before.take(k as int).push(before[k as int]) =~= before.take(k + 1));
            }
            k = k + 1;
        }
        r.push(chunk);
        proof {
            let view_of = |c: Vec<Result<Food, RowError>>| c@;
            assert(r@.map_values(view_of) =~= r@.drop_last().map_values(view_of) + seq![
                before.take(take_n as int),
            ]);
            if before.len() <= chunk_size {
                assert(before.take(take_n as int) =~= before);
                assert(rest@ =~= Seq::<Result<Food, RowError>>::empty());
                assert(spec_chunks(before, chunk_size as int) =~= seq![before]);
            } else {
                assert(spec_chunks(before, chunk_size as int) =~= seq![
                    before.take(chunk_size as int),
                ] + spec_chunks(before.skip(chunk_size as int), chunk_size as int));
            }
        }
    }
    proof {
        assert(spec_chunks(rest@, chunk_size as int) =~= Seq::<Seq<Result<Food, RowError>>>::empty());
        assert(r@.map_values(|c: Vec<Result<Food, RowError>>| c@) =~= spec_chunks(
            all,
            chunk_size as int,
        ));
    }
    r
}

/// Separates one chunk into the records that parsed and the errors of the
/// rows that did not, each side in order.
pub fn split_chunk(chunk: Vec<Result<Food, RowError>>) -> (r: (Vec<Food>, Vec<RowError>))
    ensures
        r.0@ == successes(chunk@),
        r.1@ == failures(chunk@),
{
    let ghost orig = chunk@;
    let mut c = chunk;
    let mut oks: Vec<Food> = Vec::new();
    let mut errs: Vec<RowError> = Vec::new();
    let mut k: usize = 0;
    let n = c.len();
    while c.len() > 0
        invariant
            n == orig.len(),
            k <= n,
            c@ =~= orig.skip(k as int),
            oks@ =~= successes(orig.take(k as int)),
            errs@ =~= failures(orig.take(k as int)),
        decreases c.len(),
    {
        let x = c.remove(0);
        proof {
            assert(orig.skip(k as int)[0] == orig[k as int]);
            assert(orig.skip(k as int).remove(0) =~= orig.skip(k + 1));
            assert(orig.take(k + 1).drop_last() =~= orig.take(k as int));
            assert(orig.take(k + 1).last() == orig[k as int]);
        }
        match x {
            Ok(f) => oks.push(f),
            Err(e) => errs.push(e),
        }
        k = k + 1;
    }
    proof {
        assert(orig.take(k as int) =~= orig);
    }
    (oks, errs)
}

/// One run's worth of work under the best-effort policy: the non-empty
/// per-chunk insert units for the gateway, and every row failure to report
/// once all insertable chunks have been attempted.
pub struct LoadPlan {
    pub inserts: Vec<Vec<Food>>,
    pub failures: Vec<RowError>,
}

impl LoadPlan {
    /// Best effort still reports overall failure whenever any row failed.
    pub fn run_succeeded(&self) -> (r: bool)
        ensures
            r == (self.failures@.len() == 0),
    {
        self.failures.len() == 0
    }
}

/// The batch loader's policy, applied uniformly: **best-effort**. The stream
/// is cut into fixed-size chunks; within each chunk the rows that parsed are
/// one insert unit (a chunk with none is skipped), rows that failed are
/// collected and reported after all insertable chunks, and the run counts as
/// failed when any row failed. Persisted chunks are not rolled back.
pub fn plan_load(rows: Vec<Result<Food, RowError>>, chunk_size: usize) -> (r: LoadPlan)
    requires
        chunk_size >= 1,
    ensures
        r.inserts@.map_values(|c: Vec<Food>| c@) == chunk_successes(
            spec_chunks(rows@, chunk_size as int),
        ),
        r.failures@ == failures(rows@),
{
    let ghost all = rows@;
    let ghost cseq = spec_chunks(all, chunk_size as int);
    let chunks = chunk_records(rows, chunk_size);
    let ghost chunksv = chunks@;
    let mut c = chunks;
    let mut inserts: Vec<Vec<Food>> = Vec::new();
    let mut fails: Vec<RowError> = Vec::new();
    let mut k: usize = 0;
    let n = c.len();
    while c.len() > 0
        invariant
            n == chunksv.len(),
            k <= n,
            cseq == chunksv.map_values(|ch: Vec<Result<Food, RowError>>| ch@),
            c@ =~= chunksv.skip(k as int),
            inserts@.map_values(|u: Vec<Food>| u@) =~= chunk_successes(cseq.take(k as int)),
            fails@ =~= chunk_failures(cseq.take(k as int)),
        decreases c.len(),
    {
        let ch = c.remove(0);
        proof {
            assert(chunksv.skip(k as int)[0] == chunksv[k as int]);
            assert(chunksv.skip(k as int).remove(0) =~= chunksv.skip(k + 1));
            assert(cseq[k as int] == chunksv[k as int]@);
            assert(cseq.take(k + 1).drop_last() =~= cseq.take(k as int));
            assert(cseq.take(k + 1).last() == cseq[k as int]);
        }
        let (oks, mut errs) = split_chunk(ch);
        let ghost inserts_before = inserts@;
        if oks.len() > 0 {
            inserts.push(oks);
            proof {
                assert(inserts@.map_values(|u: Vec<Food>| u@) =~= inserts_before.map_values(
                    |u: Vec<Food>| u@,
                ).push(successes(cseq[k as int])));
            }
        }
        fails.append(&mut errs);
        k = k + 1;
    }
    proof {
        assert(k == chunksv.len());
        assert(cseq.take(k as int) =~= cseq);
        lemma_chunk_failures_complete(all, chunk_size as int);
    }
    LoadPlan { inserts, failures: fails }
}

} // verus!
