//! Fan-out fetch stage: one outcome per requested source, in request order.
//!
//! The surrounding process issues the N source fetches concurrently and
//! collects one result per source; this module zips those results back to
//! their requests positionally, so a caller can attribute every failure to
//! the source that produced it.  One source's failure cannot cancel, delay
//! or alter any other source's outcome: the stage is a pure fan-out/fan-in
//! with isolated failure domains, stated here as
//! [`lemma_outcome_independence`].

use vstd::prelude::*;

verus! {

/// Why one source fetch failed.
#[derive(Debug, Clone)]
pub struct FetchError {
    pub message: String,
}

/// The tagged result of attempting to retrieve one source's value: the
/// value or a failure reason, together with the key of what was requested.
#[derive(Debug)]
#[verifier::ext_equal]
pub struct FetchOutcome<K, T> {
    pub key: K,
    pub result: Result<T, FetchError>,
}

/// `out` is the positional zip of `requests` with `results`.
pub open spec fn outcomes_match<K, T>(
    requests: Seq<K>,
    results: Seq<Result<T, FetchError>>,
    out: Seq<FetchOutcome<K, T>>,
) -> bool {
    &&& out.len() == requests.len()
    &&& results.len() == requests.len()
    &&& forall|i: int|
        0 <= i < out.len() ==> out[i].key == requests[i] && out[i].result == results[i]
}

/// Zip the results of a cycle's concurrent fetches back to their requests:
/// exactly one outcome per request, in request order.
pub fn pair_outcomes<K, T>(requests: Vec<K>, results: Vec<Result<T, FetchError>>) -> (r: Vec<
    FetchOutcome<K, T>,
>)
    requires
        requests@.len() == results@.len(),
    ensures
        outcomes_match(requests@, results@, r@),
{
    let ghost greq = requests@;
    let ghost gres = results@;
    let mut req = requests;
    let mut res = results;
    let mut out: Vec<FetchOutcome<K, T>> = Vec::new();
    while req.len() > 0
        invariant
            req@.len() == res@.len(),
            out@.len() + req@.len() == greq.len(),
            gres.len() == greq.len(),
            req@ == greq.subrange(out@.len() as int, greq.len() as int),
            res@ == gres.subrange(out@.len() as int, gres.len() as int),
            forall|i: int|
                0 <= i < out@.len() ==> out@[i].key == greq[i] && out@[i].result == gres[i],
        decreases req@.len(),
    {
        let k = req.remove(0);
        let v = res.remove(0);
        assert(k == greq[out@.len() as int]);
        assert(v == gres[out@.len() as int]);
        out.push(FetchOutcome { key: k, result: v });
        proof {
            assert(req@ =~= greq.subrange(out@.len() as int, greq.len() as int));
            assert(res@ =~= gres.subrange(out@.len() as int, gres.len() as int));
        }
    }
    out
}

/// Isolated failure domains: the `i`-th outcome depends on the `i`-th
/// request and the `i`-th result alone.  Two runs over the same requests
/// whose result collections agree at position `i` — however much they
/// differ elsewhere — produce the same outcome at position `i`.
pub proof fn lemma_outcome_independence<K, T>(
    requests: Seq<K>,
    results1: Seq<Result<T, FetchError>>,
    results2: Seq<Result<T, FetchError>>,
    out1: Seq<FetchOutcome<K, T>>,
    out2: Seq<FetchOutcome<K, T>>,
    i: int,
)
    requires
        outcomes_match(requests, results1, out1),
        outcomes_match(requests, results2, out2),
        0 <= i < requests.len(),
        results1[i] == results2[i],
    ensures
        out1[i] == out2[i],
{
    assert(out1[i] =~= out2[i]);
}

} // verus!
