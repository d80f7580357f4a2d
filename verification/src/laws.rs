//! What holds of every file.

use crate::error::ParseError;
use crate::info::{
    GcodeLineInfo,
    empty_layer,
    grown,
    laser_micros,
    layer_change_micros,
    layers_in_range,
    total_distance,
    total_micros,
    total_nanos,
    with_move,
};
use crate::line::{
    LineKind,
    MoveWords,
    TIME_KEYWORD_LEN,
    lemma_words_applied_range,
    line_kind,
    move_words,
    no_words,
    words,
};
use crate::motion::{lemma_path_length_zero, path_length, travel_nanos};
use crate::number::u32_value;
use crate::parser::{PLACEHOLDER_SECONDS, State, moved, outcome, run, step};
use vstd::prelude::*;

verus! {

/// Layers without moves at the end of a table add nothing to the sums of
/// its times and distances.
pub proof fn lemma_grown_totals(layers: Seq<GcodeLineInfo>, index: nat)
    ensures
        total_nanos(grown(layers, index)) == total_nanos(layers),
        total_distance(grown(layers, index)) == total_distance(layers),
        layers_in_range(layers) && index < 0x1_0000_0000 ==> layers_in_range(grown(layers, index)),
    decreases index,
{
    if index >= layers.len() {
        let table = grown(layers, index);
        assert(table.last() == empty_layer());
        if index == layers.len() {
            assert(table.drop_last() =~= layers);
        } else {
            assert(table.drop_last() =~= grown(layers, (index - 1) as nat));
            lemma_grown_totals(layers, (index - 1) as nat);
        }
    }
}

/// Changing the totals of one layer changes the sums by that layer's
/// change.
pub proof fn lemma_updated_totals(layers: Seq<GcodeLineInfo>, index: int, totals: GcodeLineInfo)
    requires
        0 <= index < layers.len(),
    ensures
        total_nanos(layers.update(index, totals)) == total_nanos(layers) - layers[index].time
            + totals.time,
        total_distance(layers.update(index, totals)) == total_distance(layers)
            - layers[index].distance + totals.distance,
    decreases layers.len(),
{
    let after = layers.update(index, totals);
    if index == layers.len() - 1 {
        assert(after.drop_last() =~= layers.drop_last());
    } else {
        assert(after.drop_last() =~= layers.drop_last().update(index, totals));
        lemma_updated_totals(layers.drop_last(), index, totals);
    }
}

/// The whole print time is the time of the changes of layer and the time
/// of the laser, and the changes of layer take nine and a half seconds for
/// each layer of the table.
pub proof fn lemma_total_time(layers: Seq<GcodeLineInfo>)
    ensures
        total_micros(layers) == layer_change_micros(layers) + laser_micros(layers),
        layer_change_micros(layers) == 9_500_000 * layers.len(),
{
}

/// A time comment with the placeholder declares nothing: the state stays
/// as it is. A time comment with any other number of seconds declares that
/// time, and changes nothing else.
pub proof fn lemma_time_comment(state: State, line: Seq<u8>, secs: u32)
    requires
        line_kind(line) == LineKind::TimeEstimate,
        u32_value(line.skip(TIME_KEYWORD_LEN as int)) == Some(secs),
    ensures
        secs == PLACEHOLDER_SECONDS ==> step(state, line) == Ok::<State, ParseError>(state),
        secs != PLACEHOLDER_SECONDS ==> step(state, line) == Ok::<State, ParseError>(
            State { estimate: Some(secs), ..state },
        ),
{
}

/// A move that leaves the head where it is adds no distance and no time,
/// whatever feed rate it sets, zero included: the table is only grown to hold the current
/// layer, and the sums of its times and distances stay as they are.
pub proof fn lemma_stationary_move(state: State, layer: u32, given: MoveWords)
    requires
        state.in_range(),
        given.x is None || given.x == Some(state.x),
        given.y is None || given.y == Some(state.y),
    ensures
        moved(state, layer, given) matches Ok(next) && {
            &&& next.x == state.x
            &&& next.y == state.y
            &&& next.layers == grown(state.layers, layer as nat)
            &&& total_nanos(next.layers) == total_nanos(state.layers)
            &&& total_distance(next.layers) == total_distance(state.layers)
        },
{
    lemma_path_length_zero();
    lemma_grown_totals(state.layers, layer as nat);
    let feedrate = match given.f {
        Some(v) => v,
        None => state.feedrate,
    };
    assert(travel_nanos(0, feedrate as int) == 0);
    let table = grown(state.layers, layer as nat);
    let before = table[layer as int];
    assert(table.update(layer as int, before) =~= table);
}

/// A move line that has a feed rate word and no position word, read within
/// a layer, sets the feed rate and adds nothing to any total.
pub proof fn lemma_feed_rate_alone(state: State, line: Seq<u8>, layer: u32, rate: i64)
    requires
        state.in_range(),
        state.layer == Some(layer),
        line_kind(line) == LineKind::Move,
        move_words(line) == Some(MoveWords { x: None, y: None, f: Some(rate) }),
    ensures
        step(state, line) == Ok::<State, ParseError>(
            State { feedrate: rate, layers: grown(state.layers, layer as nat), ..state },
        ),
        total_nanos(grown(state.layers, layer as nat)) == total_nanos(state.layers),
        total_distance(grown(state.layers, layer as nat)) == total_distance(state.layers),
{
    lemma_stationary_move(state, layer, MoveWords { x: None, y: None, f: Some(rate) });
}

/// A move in a layer beyond the end of the table fills the table up to that
/// layer: the table then ends with that layer, the layers that it skipped
/// have no distance and no time, the layers that were there are untouched,
/// and each layer of the table, skipped or not, counts for the changes of
/// layer.
pub proof fn lemma_sparse_layers(state: State, layer: u32, given: MoveWords)
    requires
        moved(state, layer, given) is Ok,
    ensures
        moved(state, layer, given) matches Ok(next) && {
            &&& next.layers.len() == if layer < state.layers.len() {
                state.layers.len()
            } else {
                (layer + 1) as nat
            }
            &&& forall|i: int|
                state.layers.len() <= i < layer ==> #[trigger] next.layers[i] == empty_layer()
            &&& forall|i: int|
                0 <= i < state.layers.len() && i != layer ==> #[trigger] next.layers[i]
                    == state.layers[i]
            &&& layer_change_micros(next.layers) == 9_500_000 * next.layers.len()
        },
{
}

/// What a move adds: the sums of times and distances over the table grow
/// by the time and the length of the move.
pub proof fn lemma_move_adds(state: State, layer: u32, given: MoveWords)
    requires
        moved(state, layer, given) is Ok,
    ensures
        moved(state, layer, given) matches Ok(next) && {
            &&& total_distance(next.layers) == total_distance(state.layers) + path_length(
                next.x - state.x,
                next.y - state.y,
            )
            &&& total_nanos(next.layers) == total_nanos(state.layers) + travel_nanos(
                path_length(next.x - state.x, next.y - state.y),
                next.feedrate as int,
            )
        },
{
    let next = moved(state, layer, given)->Ok_0;
    let length = path_length(next.x - state.x, next.y - state.y);
    let nanos = travel_nanos(length, next.feedrate as int);
    let table = grown(state.layers, layer as nat);
    lemma_grown_totals(state.layers, layer as nat);
    assert(with_move(state.layers, layer as nat, length, nanos) == Some(next.layers));
    lemma_updated_totals(table, layer as int, next.layers[layer as int]);
}

/// Moves before the first layer comment count for nothing: as long as no
/// line is a layer comment, the table stays empty and the head, the feed
/// rate and the current layer stay as they were at the start, whatever the
/// lines hold. Only a time comment can be refused there.
pub proof fn lemma_before_first_layer(lines: Seq<Seq<u8>>)
    requires
        forall|i: int| 0 <= i < lines.len() ==> line_kind(#[trigger] lines[i]) != LineKind::LayerMarker,
    ensures
        match run(State::initial(), lines) {
            Ok(end) => {
                &&& end.layers == Seq::<GcodeLineInfo>::empty()
                &&& end.layer is None
                &&& end.x == 0
                &&& end.y == 0
                &&& end.feedrate == 0
                &&& total_micros(end.layers) == 0
            },
            Err(failure) => failure.error == ParseError::InvalidTime,
        },
    decreases lines.len(),
{
    if lines.len() > 0 {
        let front = lines.drop_last();
        assert forall|i: int| 0 <= i < front.len() implies line_kind(#[trigger] front[i])
            != LineKind::LayerMarker by {
            assert(front[i] == lines[i]);
        }
        lemma_before_first_layer(front);
        assert(lines.last() == lines[lines.len() - 1]);
    }
}

/// Reading keeps position and feed rate in the range of fixed-point
/// numbers and the totals in their range.
pub proof fn lemma_step_in_range(state: State, line: Seq<u8>)
    requires
        state.in_range(),
    ensures
        step(state, line) matches Ok(next) ==> next.in_range(),
{
    match line_kind(line) {
        LineKind::Move => {
            if state.layer is Some && move_words(line) is Some {
                let layer = state.layer->0;
                lemma_words_applied_range(no_words(), words(line));
                lemma_grown_totals(state.layers, layer as nat);
            }
        },
        _ => {},
    }
}

/// Whatever the lines hold, what is read from the start stays in range.
pub proof fn lemma_run_in_range(lines: Seq<Seq<u8>>)
    ensures
        run(State::initial(), lines) matches Ok(end) ==> end.in_range(),
    decreases lines.len(),
{
    if lines.len() > 0 {
        lemma_run_in_range(lines.drop_last());
        match run(State::initial(), lines.drop_last()) {
            Ok(before) => {
                lemma_step_in_range(before, lines.last());
            },
            Err(_) => {},
        }
    }
}

/// Reading depends on nothing but the bytes of the lines: lines that are
/// the same byte for byte have the same outcome, the same table and
/// declared time or the same refused line and reason, however often they
/// are read.
pub proof fn lemma_same_lines_same_outcome(first: Seq<Seq<u8>>, second: Seq<Seq<u8>>)
    requires
        first.len() == second.len(),
        forall|i: int| 0 <= i < first.len() ==> first[i].len() == second[i].len(),
        forall|i: int, j: int|
            0 <= i < first.len() && 0 <= j < first[i].len() ==> first[i][j] == second[i][j],
    ensures
        outcome(first) == outcome(second),
{
    assert forall|i: int| 0 <= i < first.len() implies first[i] == second[i] by {
        assert(first[i] =~= second[i]);
    }
    assert(first =~= second);
}

} // verus!
