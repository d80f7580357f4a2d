//! Reading an instruction file line by line.
//!
//! The reader keeps the position of the head, the feed rate and the current
//! layer from line to line, and adds each move to the totals of the current
//! layer.

use crate::error::{ParseError, ParseFailure};
use crate::info::{GcodeInfo, GcodeInfoView, GcodeLineInfo, layers_in_range, with_move};
use crate::line::{
    LAYER_KEYWORD_LEN,
    LineKind,
    MoveWords,
    TIME_KEYWORD_LEN,
    ascii_bytes,
    classify,
    line_kind,
    move_words,
    parse_move,
};
use crate::motion::{can_travel, path_length, path_length_of, travel_nanos, travel_time};
use crate::number::{MAX_FIXED, parse_u32, u32_value};
use vstd::prelude::*;
use vstd::slice::slice_subrange;

verus! {

/// The time that a slicer writes when it has not estimated any: a time
/// comment with this number of seconds declares nothing.
pub const PLACEHOLDER_SECONDS: u32 = 6666;

/// What is known after some lines: the position of the head in nanometres,
/// the feed rate in millionths of a micrometre per minute, the current
/// layer if a layer has started, the declared time in seconds if one was
/// declared, and the totals of each layer.
pub struct State {
    pub x: i64,
    pub y: i64,
    pub feedrate: i64,
    pub layer: Option<u32>,
    pub estimate: Option<u32>,
    pub layers: Seq<GcodeLineInfo>,
}

impl State {
    /// Before the first line: the head at the origin, no feed rate, no
    /// layer, nothing declared and no totals.
    pub open spec fn initial() -> State {
        State { x: 0, y: 0, feedrate: 0, layer: None, estimate: None, layers: Seq::empty() }
    }

    /// Whether position and feed rate are fixed-point numbers and the
    /// totals are in range.
    pub open spec fn in_range(self) -> bool {
        &&& -MAX_FIXED <= self.x <= MAX_FIXED
        &&& -MAX_FIXED <= self.y <= MAX_FIXED
        &&& -MAX_FIXED <= self.feedrate <= MAX_FIXED
        &&& layers_in_range(self.layers)
    }
}

/// The state after a move with the given words in the layer `layer`.
///
/// A value without a word stays as it was. The length of the move is that
/// of the straight path from the old to the new position, and its time
/// that length at the feed rate; both are added to the totals of the
/// layer. A move that changes the position while the feed rate is zero is
/// refused.
pub open spec fn moved(state: State, layer: u32, given: MoveWords) -> Result<State, ParseError> {
    let x = match given.x {
        Some(v) => v,
        None => state.x,
    };
    let y = match given.y {
        Some(v) => v,
        None => state.y,
    };
    let feedrate = match given.f {
        Some(v) => v,
        None => state.feedrate,
    };
    let length = path_length(x - state.x, y - state.y);
    if !can_travel(length, feedrate as int) {
        Err(ParseError::ZeroFeedrate)
    } else {
        let nanos = travel_nanos(length, feedrate as int);
        match with_move(state.layers, layer as nat, length, nanos) {
            Some(layers) => Ok(State { x, y, feedrate, layers, ..state }),
            None => Err(ParseError::TotalOutOfRange),
        }
    }
}

/// The state after one more line, or the reason for which the line is
/// refused.
///
/// A time comment sets the declared time, unless it gives the placeholder.
/// A layer comment sets the current layer. A move before the first layer
/// comment is passed over unread; a later one is added to the current
/// layer. Any other line changes nothing.
pub open spec fn step(state: State, line: Seq<u8>) -> Result<State, ParseError> {
    match line_kind(line) {
        LineKind::TimeEstimate => match u32_value(line.skip(TIME_KEYWORD_LEN as int)) {
            Some(secs) => if secs == PLACEHOLDER_SECONDS {
                Ok(state)
            } else {
                Ok(State { estimate: Some(secs), ..state })
            },
            None => Err(ParseError::InvalidTime),
        },
        LineKind::LayerMarker => match u32_value(line.skip(LAYER_KEYWORD_LEN as int)) {
            Some(number) => Ok(State { layer: Some(number), ..state }),
            None => Err(ParseError::InvalidLayer),
        },
        LineKind::Move => match state.layer {
            Some(layer) => match move_words(line) {
                Some(given) => moved(state, layer, given),
                None => Err(ParseError::InvalidNumber),
            },
            None => Ok(state),
        },
        LineKind::Other => Ok(state),
    }
}

/// The state after all of `lines`, line by line from the first, or the
/// first refused line with the reason. Nothing after a refused line is
/// read.
pub open spec fn run(state: State, lines: Seq<Seq<u8>>) -> Result<State, ParseFailure>
    decreases lines.len(),
{
    if lines.len() == 0 {
        Ok(state)
    } else {
        match run(state, lines.drop_last()) {
            Ok(before) => match step(before, lines.last()) {
                Ok(next) => Ok(next),
                Err(error) => Err(ParseFailure { line: (lines.len() - 1) as usize, error }),
            },
            Err(failure) => Err(failure),
        }
    }
}

/// What `lines` say of a print when read from the start, or the first
/// refused line with the reason.
pub open spec fn outcome(lines: Seq<Seq<u8>>) -> Result<GcodeInfoView, ParseFailure> {
    match run(State::initial(), lines) {
        Ok(end) => Ok(GcodeInfoView { slicer_estimate: end.estimate, layers: end.layers }),
        Err(failure) => Err(failure),
    }
}

/// The lines as sequences of bytes.
pub open spec fn line_bytes(lines: Seq<Vec<u8>>) -> Seq<Seq<u8>> {
    Seq::new(lines.len(), |i: int| lines[i]@)
}

/// The position of the head, the feed rate and the current layer.
#[derive(Clone, Copy, Debug)]
struct HeadState {
    x: i64,
    y: i64,
    feedrate: i64,
    layer: Option<u32>,
}

impl HeadState {
    #[verifier::type_invariant]
    spec fn well_formed(self) -> bool {
        &&& -MAX_FIXED <= self.x <= MAX_FIXED
        &&& -MAX_FIXED <= self.y <= MAX_FIXED
        &&& -MAX_FIXED <= self.feedrate <= MAX_FIXED
    }
}

/// A reader of instruction lines.
#[derive(Debug)]
pub struct Parser {
    head: HeadState,
    info: GcodeInfo,
}

impl View for Parser {
    type V = State;

    closed spec fn view(&self) -> State {
        State {
            x: self.head.x,
            y: self.head.y,
            feedrate: self.head.feedrate,
            layer: self.head.layer,
            estimate: self.info@.slicer_estimate,
            layers: self.info@.layers,
        }
    }
}

impl Parser {
    /// A reader that has read no line.
    pub fn new() -> (parser: Parser)
        ensures
            parser@ == State::initial(),
    {
        Parser {
            head: HeadState { x: 0, y: 0, feedrate: 0, layer: None },
            info: GcodeInfo::new(),
        }
    }

    /// The position of the head on both axes, in nanometres.
    pub fn position(&self) -> (at: (i64, i64))
        ensures
            at.0 == self@.x,
            at.1 == self@.y,
    {
        (self.head.x, self.head.y)
    }

    /// The feed rate, in millionths of a micrometre per minute.
    pub fn feedrate(&self) -> (rate: i64)
        ensures
            rate == self@.feedrate,
    {
        self.head.feedrate
    }

    /// The current layer, or `None` before the first layer comment.
    pub fn current_layer(&self) -> (layer: Option<u32>)
        ensures
            layer == self@.layer,
    {
        self.head.layer
    }

    /// What has been read so far.
    pub fn info(&self) -> (info: &GcodeInfo)
        ensures
            info@.layers == self@.layers,
            info@.slicer_estimate == self@.estimate,
    {
        &self.info
    }

    /// Ends the reading and hands out what was read.
    pub fn finish(self) -> (info: GcodeInfo)
        ensures
            info@.layers == self@.layers,
            info@.slicer_estimate == self@.estimate,
    {
        self.info
    }

    /// Reads one line. A refused line changes nothing.
    pub fn feed_line(&mut self, line: &[u8]) -> (done: Result<(), ParseError>)
        ensures
            match step(old(self)@, line@) {
                Ok(next) => done.is_ok() && final(self)@ == next,
                Err(e) => done == Err::<(), ParseError>(e) && final(self)@ == old(self)@,
            },
    {
        proof {
            reveal_strlit(";TIME:");
            reveal_strlit(";LAYER:");
            use_type_invariant(&self.head);
        }
        match classify(line) {
            LineKind::TimeEstimate => {
                assert(ascii_bytes(";TIME:"@).len() == 6);
                let text: &[u8] = slice_subrange(line, TIME_KEYWORD_LEN, line.len());
                assert(text@ =~= line@.skip(TIME_KEYWORD_LEN as int));
                match parse_u32(text) {
                    Some(secs) => {
                        if secs != PLACEHOLDER_SECONDS {
                            self.info.set_slicer_estimate(secs);
                        }
                        Ok(())
                    },
                    None => Err(ParseError::InvalidTime),
                }
            },
            LineKind::LayerMarker => {
                assert(ascii_bytes(";LAYER:"@).len() == 7);
                let text: &[u8] = slice_subrange(line, LAYER_KEYWORD_LEN, line.len());
                assert(text@ =~= line@.skip(LAYER_KEYWORD_LEN as int));
                match parse_u32(text) {
                    Some(number) => {
                        self.head = HeadState {
                            x: self.head.x,
                            y: self.head.y,
                            feedrate: self.head.feedrate,
                            layer: Some(number),
                        };
                        Ok(())
                    },
                    None => Err(ParseError::InvalidLayer),
                }
            },
            LineKind::Move => {
                let layer: u32 = match self.head.layer {
                    Some(layer) => layer,
                    None => {
                        return Ok(());
                    },
                };
                let given: MoveWords = match parse_move(line) {
                    Some(given) => given,
                    None => {
                        return Err(ParseError::InvalidNumber);
                    },
                };
                let x: i64 = match given.x {
                    Some(v) => v,
                    None => self.head.x,
                };
                let y: i64 = match given.y {
                    Some(v) => v,
                    None => self.head.y,
                };
                let feedrate: i64 = match given.f {
                    Some(v) => v,
                    None => self.head.feedrate,
                };
                let length: u64 = path_length_of(x - self.head.x, y - self.head.y);
                let nanos: i128 = match travel_time(length, feedrate) {
                    Some(nanos) => nanos,
                    None => {
                        return Err(ParseError::ZeroFeedrate);
                    },
                };
                match self.info.add_move(layer, length, nanos) {
                    Ok(()) => {
                        self.head = HeadState { x, y, feedrate, layer: Some(layer) };
                        Ok(())
                    },
                    Err(e) => Err(e),
                }
            },
            LineKind::Other => Ok(()),
        }
    }
}

/// Reading one line more: the lines up to and with line `k` give what the
/// line `k` makes of the state after the lines before it.
pub proof fn lemma_run_step(state: State, lines: Seq<Seq<u8>>, k: int)
    requires
        0 <= k < lines.len(),
    ensures
        run(state, lines.take(k + 1)) == match run(state, lines.take(k)) {
            Ok(before) => match step(before, lines[k]) {
                Ok(next) => Ok(next),
                Err(error) => Err(ParseFailure { line: k as usize, error }),
            },
            Err(failure) => Err(failure),
        },
{
    assert(lines.take(k + 1).drop_last() =~= lines.take(k));
}

/// Once a line is refused, no later line is read: the refusal stays.
pub proof fn lemma_run_refused(state: State, lines: Seq<Seq<u8>>, k: int)
    requires
        0 <= k <= lines.len(),
        run(state, lines.take(k)) is Err,
    ensures
        run(state, lines) == run(state, lines.take(k)),
    decreases lines.len() - k,
{
    if k < lines.len() {
        lemma_run_step(state, lines, k);
        lemma_run_refused(state, lines, k + 1);
    } else {
        assert(lines.take(k) =~= lines);
    }
}

/// Reads all of `lines` and gives what they say of the print, or the first
/// refused line with the reason.
pub fn parse_lines(lines: &[Vec<u8>]) -> (parsed: Result<GcodeInfo, ParseFailure>)
    ensures
        match parsed {
            Ok(info) => outcome(line_bytes(lines@)) == Ok::<GcodeInfoView, ParseFailure>(info@),
            Err(failure) => outcome(line_bytes(lines@)) == Err::<GcodeInfoView, ParseFailure>(
                failure,
            ),
        },
{
    let count: usize = lines.len();
    let ghost all = line_bytes(lines@);
    let mut parser: Parser = Parser::new();
    let mut i: usize = 0;
    assert(all.take(0) =~= Seq::<Seq<u8>>::empty());
    while i < count
        invariant
            i <= count,
            count == lines@.len(),
            all == line_bytes(lines@),
            run(State::initial(), all.take(i as int)) == Ok::<State, ParseFailure>(parser@),
        decreases count - i,
    {
        proof {
            lemma_run_step(State::initial(), all, i as int);
        }
        match parser.feed_line(lines[i].as_slice()) {
            Ok(()) => {},
            Err(error) => {
                proof {
                    lemma_run_refused(State::initial(), all, i + 1);
                }
                return Err(ParseFailure { line: i, error });
            },
        }
        i += 1;
    }
    assert(all.take(count as int) =~= all);
    Ok(parser.finish())
}

} // verus!
