//! Planning of per-line pipelines and collection of their results.
//!
//! Each input line gets an independent resolution pipeline. The admission
//! decision for one line and the aggregation of all pipelines' outcomes are
//! pure and stand here; the launch throttle and the waiting are the caller's,
//! as is everything that touches the network.

use crate::accession::{AccessionCodes, ParseError};
use crate::record::{DownloadInfo, DownloadInfoV};
use vstd::prelude::*;

verus! {

/// Why one accession's fetch yielded no records.
#[derive(Debug, Clone, Copy, PartialEq, Eq, Structural)]
pub enum FetchError {
    /// The record archive could not be reached.
    NetworkError,
    /// The archive's response could not be read as records.
    DecodeError,
}

/// The admission decision for one input line.
#[derive(Debug, Clone)]
pub enum LineAction {
    /// The line holds nothing: no pipeline, no report.
    Skip,
    /// The line parsed: launch one pipeline for this accession.
    Launch(AccessionCodes),
    /// The line is malformed: report it and go on with the batch.
    Reject(ParseError),
}

/// Decides what to do with one input line: a blank line is skipped, a
/// well-formed one launches a pipeline, a malformed one is rejected without
/// stopping the batch.
pub fn plan_line(line: &str) -> (r: LineAction)
    ensures
        ({
            let toks = crate::accession::spec_tokens(line@);
            match r {
                LineAction::Skip => toks.len() == 0,
                LineAction::Launch(a) => a.parse_ok(toks),
                LineAction::Reject(ParseError::TooManyFields) => toks.len() > 2,
                LineAction::Reject(ParseError::UnknownPrefix) => 1 <= toks.len() <= 2
                    && !crate::accession::has_recognized_prefix(toks[0]),
                LineAction::Reject(ParseError::EmptyInput) => false,
            }
        }),
{
    match AccessionCodes::from_str(line) {
        Ok(a) => LineAction::Launch(a),
        Err(ParseError::EmptyInput) => LineAction::Skip,
        Err(e) => LineAction::Reject(e),
    }
}

/// The descriptors one pipeline contributed: its descriptor views, or nothing
/// when it ended without download information.
pub open spec fn outcome_view(o: Option<Vec<DownloadInfo>>) -> Option<Seq<DownloadInfoV>> {
    match o {
        Some(v) => Some(v@.map_values(|d: DownloadInfo| d@)),
        None => None,
    }
}

/// The per-pipeline outcomes as mathematical values.
pub open spec fn outcomes_view(parts: Seq<Option<Vec<DownloadInfo>>>) -> Seq<
    Option<Seq<DownloadInfoV>>,
> {
    parts.map_values(|o: Option<Vec<DownloadInfo>>| outcome_view(o))
}

/// The concatenation of all pipelines' descriptor sequences, in pipeline
/// order; a pipeline without download information contributes nothing.
pub open spec fn spec_collect(parts: Seq<Option<Seq<DownloadInfoV>>>) -> Seq<DownloadInfoV>
    decreases parts.len(),
{
    if parts.len() == 0 {
        Seq::empty()
    } else {
        (match parts[0] {
            Some(p) => p,
            None => Seq::empty(),
        }) + spec_collect(parts.skip(1))
    }
}

/// The sum of the pipelines' independently-computed descriptor counts.
pub open spec fn spec_count(parts: Seq<Option<Seq<DownloadInfoV>>>) -> int
    decreases parts.len(),
{
    if parts.len() == 0 {
        0
    } else {
        (match parts[0] {
            Some(p) => p.len() as int,
            None => 0,
        }) + spec_count(parts.skip(1))
    }
}

/// The collected batch holds exactly as many descriptors as the pipelines
/// computed between them: concatenation neither drops nor invents one.
pub proof fn lemma_collect_count(parts: Seq<Option<Seq<DownloadInfoV>>>)
    ensures
        spec_collect(parts).len() == spec_count(parts),
    decreases parts.len(),
{
    if parts.len() > 0 {
        lemma_collect_count(parts.skip(1));
    }
}

/// Concatenates the pipelines' outcomes into the batch result, in pipeline
/// order; its length is the sum of the per-pipeline counts.
pub fn collect_results(parts: Vec<Option<Vec<DownloadInfo>>>) -> (r: Vec<DownloadInfo>)
    ensures
        r@.map_values(|d: DownloadInfo| d@) == spec_collect(outcomes_view(parts@)),
        r@.len() == spec_count(outcomes_view(parts@)),
{
    let ghost pv = outcomes_view(parts@);
    let mut rest = parts;
    let mut out: Vec<DownloadInfo> = Vec::new();
    proof {
        assert(out@.map_values(|d: DownloadInfo| d@) =~= Seq::<DownloadInfoV>::empty());
        assert(Seq::<DownloadInfoV>::empty() + spec_collect(outcomes_view(rest@)) =~= spec_collect(
            pv,
        ));
    }
    while rest.len() > 0
        invariant
            out@.map_values(|d: DownloadInfo| d@) + spec_collect(outcomes_view(rest@))
                == spec_collect(pv),
        decreases rest.len(),
    {
        let ghost rv = outcomes_view(rest@);
        let ghost out0 = out@.map_values(|d: DownloadInfo| d@);
        let part = rest.remove(0);
        proof {
            assert(outcomes_view(rest@) =~= rv.skip(1));
            assert(rv[0] == outcome_view(part));
        }
        match part {
            Some(mut v) => {
                let ghost vv = v@.map_values(|d: DownloadInfo| d@);
                out.append(&mut v);
                proof {
                    assert(out@.map_values(|d: DownloadInfo| d@) =~= out0 + vv);
                    assert((out0 + vv) + spec_collect(rv.skip(1)) =~= out0 + (vv + spec_collect(
                        rv.skip(1),
                    )));
                }
            },
            None => {
                proof {
                    assert(out0 + spec_collect(rv.skip(1)) =~= out0 + (Seq::<
                        DownloadInfoV,
                    >::empty() + spec_collect(rv.skip(1))));
                }
            },
        }
    }
    proof {
        assert(outcomes_view(rest@) =~= Seq::<Option<Seq<DownloadInfoV>>>::empty());
        assert(spec_collect(outcomes_view(rest@)) =~= Seq::<DownloadInfoV>::empty());
        assert(out@.map_values(|d: DownloadInfo| d@) =~= spec_collect(pv));
        lemma_collect_count(pv);
    }
    out
}

} // verus!
