//! Listing streams and their statistics.

use vstd::prelude::*;
use crate::commands::get::custom_label_trend_report::ModelVersion;


verus! {

/// The options of `re get streams`.
pub struct GetStreamsArgs {
    /// The dataset, by name or id.
    pub dataset: String,
    /// Write the listing to this file.
    pub path: Option<String>,
}

/// The options of `re get stream-stats`.
pub struct GetStreamStatsArgs {
    /// The stream, as `owner/dataset/stream`.
    pub stream_full_name: String,
    /// Compare with this model version.
    pub compare_to_model_version: Option<ModelVersion>,
    /// Compare with this dataset, as `owner/name`.
    pub compare_to_dataset: Option<String>,
}

/// A dataset to compare with needs a model version to compare.
pub fn validate_stream_stats_args(
    compare_to_dataset: &Option<String>,
    compare_to_model_version: &Option<ModelVersion>,
) -> (result: Result<(), String>)
    ensures
        result is Err <==> (compare_to_dataset is Some && compare_to_model_version is None),
        result matches Err(message) ==> message@
            == "You cannot provide `compare_to_dataset` without `compare_to_model_version`"@,
{
    if compare_to_dataset.is_some() && compare_to_model_version.is_none() {
        Err(
            crate::text::owned(
                "You cannot provide `compare_to_dataset` without `compare_to_model_version`",
            ),
        )
    } else {
        Ok(())
    }
}

/// One thing to do with a batch fetched from a stream.
#[derive(PartialEq, Eq, Structural, Debug)]
pub enum StreamAction {
    /// Nothing new: wait before polling again.
    Wait,
    /// Print the result at this index.
    Print(usize),
    /// Advance the stream past the result at this index.
    AdvanceToResult(usize),
    /// Advance the stream past the whole batch.
    AdvanceToBatch,
}

/// The actions for the results `0..n` of a batch: each is printed, and,
/// when advancing one result at a time, then advanced past.
pub open spec fn result_actions(n: nat, individual_advance: bool) -> Seq<StreamAction>
    decreases n,
{
    if n == 0 {
        Seq::empty()
    } else {
        let i = (n - 1) as usize;
        result_actions((n - 1) as nat, individual_advance) + seq![StreamAction::Print(i)] + if individual_advance {
            seq![StreamAction::AdvanceToResult(i)]
        } else {
            Seq::empty()
        }
    }
}

/// What a continuous stream listener does with one batch: an empty batch
/// is waited on, unless comments were filtered out of it, in which case the
/// stream is advanced past it; otherwise every result is printed (and
/// advanced past, one at a time, if so asked), and the stream is advanced
/// past the batch unless the last result already took it there.
pub open spec fn batch_actions(
    results: Seq<Seq<char>>,
    batch: Seq<char>,
    filtered: u64,
    individual_advance: bool,
) -> Seq<StreamAction> {
    if results.len() == 0 {
        if filtered == 0 {
            seq![StreamAction::Wait]
        } else {
            seq![StreamAction::AdvanceToBatch]
        }
    } else {
        result_actions(results.len(), individual_advance) + if !individual_advance || batch
            != results.last() {
            seq![StreamAction::AdvanceToBatch]
        } else {
            Seq::empty()
        }
    }
}

/// Among `actions` is printing result `i`.
pub open spec fn prints_result(actions: Seq<StreamAction>, i: int) -> bool {
    actions.contains(StreamAction::Print(i as usize))
}

/// How a listener treats a batch. An empty batch is waited on exactly when
/// nothing was filtered out of it, and otherwise the stream is advanced past
/// it, whether or not results are advanced one at a time. A batch with
/// results is never waited on: each result is printed, in order, and the
/// last action moves the stream on, past the batch or past the last result.
pub proof fn lemma_batch_actions_law(
    results: Seq<Seq<char>>,
    batch: Seq<char>,
    filtered: u64,
    individual_advance: bool,
)
    ensures
        results.len() == 0 ==> batch_actions(results, batch, filtered, individual_advance)
            == batch_actions(results, batch, filtered, !individual_advance),
        results.len() == 0 ==> batch_actions(results, batch, filtered, individual_advance).len()
            == 1,
        results.len() == 0 ==> (batch_actions(results, batch, filtered, individual_advance)[0]
            == StreamAction::Wait <==> filtered == 0),
        results.len() == 0 && filtered != 0 ==> batch_actions(
            results,
            batch,
            filtered,
            individual_advance,
        )[0] == StreamAction::AdvanceToBatch,
        results.len() > 0 ==> !batch_actions(results, batch, filtered, individual_advance).contains(
            StreamAction::Wait,
        ),
        results.len() > 0 ==> ({
            let actions = batch_actions(results, batch, filtered, individual_advance);
            actions.len() > 0 && (actions.last() == StreamAction::AdvanceToBatch || actions.last()
                == StreamAction::AdvanceToResult((results.len() - 1) as usize))
        }),
        forall|i: int|
            0 <= i < results.len() ==> #[trigger] prints_result(
                batch_actions(results, batch, filtered, individual_advance),
                i,
            ),
{
    let actions = batch_actions(results, batch, filtered, individual_advance);
    if results.len() > 0 {
        lemma_result_actions_shape(results.len(), individual_advance);
        let ra = result_actions(results.len(), individual_advance);
        assert forall|i: int| 0 <= i < results.len() implies #[trigger] prints_result(actions, i) by {
            assert(prints_result(ra, i));
            let k = choose|k: int| 0 <= k < ra.len() && ra[k] == StreamAction::Print(i as usize);
            assert(actions[k] == ra[k]);
        }
        if actions.contains(StreamAction::Wait) {
            let k = choose|k: int| 0 <= k < actions.len() && actions[k] == StreamAction::Wait;
            if k < ra.len() {
                assert(actions[k] == ra[k]);
            }
        }
        let n = results.len();
        let tail = if !individual_advance || batch != results.last() {
            seq![StreamAction::AdvanceToBatch]
        } else {
            Seq::<StreamAction>::empty()
        };
        if tail.len() == 0 {
            assert(actions =~= ra);
        }
    }
}

/// The actions for `n` results: each printed in order, no wait, and, when
/// results are advanced one at a time, the last one advanced past last.
proof fn lemma_result_actions_shape(n: nat, individual_advance: bool)
    ensures
        !result_actions(n, individual_advance).contains(StreamAction::Wait),
        forall|i: int| 0 <= i < n ==> #[trigger] prints_result(result_actions(n, individual_advance), i),
        n > 0 && individual_advance ==> result_actions(n, individual_advance).last()
            == StreamAction::AdvanceToResult((n - 1) as usize),
        n > 0 ==> result_actions(n, individual_advance).len() > 0,
    decreases n,
{
    if n > 0 {
        let prev = result_actions((n - 1) as nat, individual_advance);
        lemma_result_actions_shape((n - 1) as nat, individual_advance);
        let i = (n - 1) as usize;
        let extra = if individual_advance {
            seq![StreamAction::AdvanceToResult(i)]
        } else {
            Seq::<StreamAction>::empty()
        };
        let all = result_actions(n, individual_advance);
        assert(all == prev + seq![StreamAction::Print(i)] + extra);
        assert(all[prev.len() as int] == StreamAction::Print(i));
        assert forall|j: int| 0 <= j < n implies #[trigger] prints_result(all, j) by {
            if j < n - 1 {
                assert(prints_result(prev, j));
                let k = choose|k: int| 0 <= k < prev.len() && prev[k] == StreamAction::Print(
                    j as usize,
                );
                assert(all[k] == prev[k]);
            }
        }
        if all.contains(StreamAction::Wait) {
            let k = choose|k: int| 0 <= k < all.len() && all[k] == StreamAction::Wait;
            if k < prev.len() {
                assert(all[k] == prev[k]);
            }
        }
    }
}

/// The actions for one batch fetched from a stream, given the sequence ids
/// of its results and of the batch.
pub fn stream_batch_actions(
    result_sequence_ids: &[String],
    batch_sequence_id: &str,
    filtered: u64,
    individual_advance: bool,
) -> (actions: Vec<StreamAction>)
    ensures
        actions@ == batch_actions(
            crate::text::string_views(result_sequence_ids@),
            batch_sequence_id@,
            filtered,
            individual_advance,
        ),
        result_sequence_ids@.len() == 0 && filtered == 0 ==> actions@ == seq![StreamAction::Wait],
        result_sequence_ids@.len() == 0 && filtered != 0 ==> actions@ == seq![
            StreamAction::AdvanceToBatch,
        ],
{
    let ghost results = crate::text::string_views(result_sequence_ids@);
    let mut actions: Vec<StreamAction> = Vec::new();
    if result_sequence_ids.len() == 0 {
        if filtered == 0 {
            actions.push(StreamAction::Wait);
        } else {
            actions.push(StreamAction::AdvanceToBatch);
        }
        assert(actions@ =~= batch_actions(results, batch_sequence_id@, filtered, individual_advance));
        return actions;
    }
    let mut i: usize = 0;
    while i < result_sequence_ids.len()
        invariant
            i <= result_sequence_ids.len(),
            actions@ == result_actions(i as nat, individual_advance),
        decreases result_sequence_ids.len() - i,
    {
        actions.push(StreamAction::Print(i));
        if individual_advance {
            actions.push(StreamAction::AdvanceToResult(i));
        }
        assert(actions@ =~= result_actions((i + 1) as nat, individual_advance));
        i = i + 1;
    }
    let last = result_sequence_ids.len() - 1;
    let needs_final_advance = !individual_advance || !crate::text::str_eq(
        batch_sequence_id,
        result_sequence_ids[last].as_str(),
    );
    let ghost before = actions@;
    if needs_final_advance {
        actions.push(StreamAction::AdvanceToBatch);
    }
    proof {
        assert(results.last() == result_sequence_ids@[last as int]@);
        if needs_final_advance {
            assert(actions@ =~= before + seq![StreamAction::AdvanceToBatch]);
        } else {
            assert(actions@ =~= before + Seq::<StreamAction>::empty());
        }
    }
    actions
}

} // verus!
