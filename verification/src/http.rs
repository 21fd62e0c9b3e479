//! How the exporter answers the requests that it is sent.

use crate::text::same_text;
use vstd::prelude::*;

verus! {

/// Where the metrics are served.
pub const METRICS_PATH: &'static str = "/metrics";

/// An answer to a request.
#[derive(Clone, Copy, Debug, PartialEq, Eq, Structural)]
pub enum Answer {
    /// The samples that are published now.
    Metrics,
    /// Nothing but a status.
    Empty(u16),
}

/// What a request leads to.
#[derive(Clone, Copy, Debug, PartialEq, Eq, Structural)]
pub enum Route {
    /// An answer at once.
    Reply(Answer),
    /// An update of the samples, and an answer after it.
    Update,
}

/// What a request for `url` leads to.
pub open spec fn routed(url: Seq<char>) -> Route {
    if url == METRICS_PATH@ {
        Route::Update
    } else {
        Route::Reply(Answer::Empty(404))
    }
}

/// What a request for `url` leads to: an update for the metrics, status 404 for anything else.
pub fn route(url: &str) -> (r: Route)
    ensures
        r == (if url@ == METRICS_PATH@ {
            Route::Update
        } else {
            Route::Reply(Answer::Empty(404))
        }),
        r == routed(url@),
{
    if same_text(url, METRICS_PATH) {
        Route::Update
    } else {
        Route::Reply(Answer::Empty(404))
    }
}

/// The answer after an update.
pub open spec fn answered(updated: bool) -> Answer {
    if updated {
        Answer::Metrics
    } else {
        Answer::Empty(408)
    }
}

/// The answer after an update: the samples if it succeeded, status 408 if it did not.
pub fn answer_after_update(updated: bool) -> (r: Answer)
    ensures
        r == (if updated {
            Answer::Metrics
        } else {
            Answer::Empty(408)
        }),
        r == answered(updated),
{
    if updated {
        Answer::Metrics
    } else {
        Answer::Empty(408)
    }
}

/// Metrics are served under one path, and under no other is anything found.
pub proof fn only_the_metrics_are_found(url: Seq<char>)
    ensures
        routed(url) is Update <==> url == seq!['/', 'm', 'e', 't', 'r', 'i', 'c', 's'],
        routed(url) !is Update <==> routed(url) == Route::Reply(Answer::Empty(404)),
{
    reveal_strlit("/metrics");
    assert(METRICS_PATH@ =~= seq!['/', 'm', 'e', 't', 'r', 'i', 'c', 's']);
}

/// Samples are handed out exactly after an update that succeeded.
pub proof fn samples_are_handed_out_after_a_success_only(updated: bool)
    ensures
        answered(updated) is Metrics <==> updated,
        answered(updated) == Answer::Empty(408) <==> !updated,
{
}

} // verus!
