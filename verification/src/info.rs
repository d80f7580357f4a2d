//! The per-layer table that reading a file fills, and the three times that
//! follow from it.

use crate::duration::Duration;
use crate::error::ParseError;
use vstd::prelude::*;
use vstd::std_specs::cmp::PartialEqSpecImpl;

verus! {

/// The time that a change of layer takes, in microseconds: nine and a half
/// seconds.
pub const LAYER_CHANGE_MICROS: u64 = 9_500_000;

/// The largest magnitude of the time of one layer, in nanoseconds.
pub const MAX_LAYER_NANOS: i64 = 1_000_000_000_000_000_000;

/// The largest number of layers.
pub const MAX_LAYERS: u64 = 0x1_0000_0000;

/// The totals of one layer: the distance travelled in nanometres and the
/// time taken in nanoseconds.
#[derive(Clone, Copy, Debug, PartialEq, Eq, Structural)]
pub struct GcodeLineInfo {
    pub distance: u64,
    pub time: i64,
}

impl Default for GcodeLineInfo {
    /// The totals of a layer without moves.
    fn default() -> (totals: GcodeLineInfo)
        ensures
            totals == empty_layer(),
    {
        GcodeLineInfo { distance: 0, time: 0 }
    }
}

/// The totals of a layer without moves.
pub open spec fn empty_layer() -> GcodeLineInfo {
    GcodeLineInfo { distance: 0, time: 0 }
}

/// Whether a table holds no more layers than [`MAX_LAYERS`] and no time
/// above [`MAX_LAYER_NANOS`] in magnitude.
pub open spec fn layers_in_range(layers: Seq<GcodeLineInfo>) -> bool {
    &&& layers.len() <= MAX_LAYERS
    &&& forall|i: int|
        0 <= i < layers.len() ==> -MAX_LAYER_NANOS <= (#[trigger] layers[i]).time
            <= MAX_LAYER_NANOS
}

/// The table with layers without moves added at its end until it has the
/// layer `index`.
pub open spec fn grown(layers: Seq<GcodeLineInfo>, index: nat) -> Seq<GcodeLineInfo> {
    if index < layers.len() {
        layers
    } else {
        layers + Seq::new((index + 1 - layers.len()) as nat, |i: int| empty_layer())
    }
}

/// The table after a move of `distance` and `nanos` in the layer `index`:
/// the table is grown to hold that layer, and the move is added to its
/// totals. `None` where a total would leave its range.
pub open spec fn with_move(layers: Seq<GcodeLineInfo>, index: nat, distance: nat, nanos: int)
    -> Option<Seq<GcodeLineInfo>> {
    let table = grown(layers, index);
    let before = table[index as int];
    if before.distance + distance <= u64::MAX && -MAX_LAYER_NANOS <= before.time + nanos
        <= MAX_LAYER_NANOS {
        Some(
            table.update(
                index as int,
                GcodeLineInfo {
                    distance: (before.distance + distance) as u64,
                    time: (before.time + nanos) as i64,
                },
            ),
        )
    } else {
        None
    }
}

/// The sum of the times of all layers, in nanoseconds.
pub open spec fn total_nanos(layers: Seq<GcodeLineInfo>) -> int
    decreases layers.len(),
{
    if layers.len() == 0 {
        0
    } else {
        total_nanos(layers.drop_last()) + layers.last().time
    }
}

/// The sum of the distances of all layers, in nanometres.
pub open spec fn total_distance(layers: Seq<GcodeLineInfo>) -> nat
    decreases layers.len(),
{
    if layers.len() == 0 {
        0
    } else {
        total_distance(layers.drop_last()) + layers.last().distance as nat
    }
}

/// The time that the laser is on, in microseconds: the sum of the times of
/// all layers, rounded down to whole microseconds, and zero where that sum
/// is negative.
pub open spec fn laser_micros(layers: Seq<GcodeLineInfo>) -> nat {
    if total_nanos(layers) <= 0 {
        0
    } else {
        (total_nanos(layers) / 1_000) as nat
    }
}

/// The time that the changes of layer take, in microseconds: nine and a
/// half seconds for each layer of the table.
pub open spec fn layer_change_micros(layers: Seq<GcodeLineInfo>) -> nat {
    layers.len() * LAYER_CHANGE_MICROS as nat
}

/// The whole print time in microseconds: the changes of layer and the
/// laser.
pub open spec fn total_micros(layers: Seq<GcodeLineInfo>) -> nat {
    layer_change_micros(layers) + laser_micros(layers)
}

/// The sum over a prefix of the table grows by the next layer's time.
pub proof fn lemma_total_nanos_step(layers: Seq<GcodeLineInfo>, k: int)
    requires
        0 <= k < layers.len(),
    ensures
        total_nanos(layers.take(k + 1)) == total_nanos(layers.take(k)) + layers[k].time,
{
    assert(layers.take(k + 1).drop_last() =~= layers.take(k));
}

/// The sum of the times is within the largest time of a layer, taken once
/// for each layer.
pub proof fn lemma_total_nanos_bound(layers: Seq<GcodeLineInfo>)
    requires
        forall|i: int|
            0 <= i < layers.len() ==> -MAX_LAYER_NANOS <= (#[trigger] layers[i]).time
                <= MAX_LAYER_NANOS,
    ensures
        -(layers.len() * MAX_LAYER_NANOS) <= total_nanos(layers) <= layers.len() * MAX_LAYER_NANOS,
    decreases layers.len(),
{
    if layers.len() > 0 {
        let front = layers.drop_last();
        assert forall|i: int| 0 <= i < front.len() implies -MAX_LAYER_NANOS <= (
        #[trigger] front[i]).time <= MAX_LAYER_NANOS by {
            assert(front[i] == layers[i]);
        }
        lemma_total_nanos_bound(front);
        assert(layers.last() == layers[layers.len() - 1]);
    }
}

/// What a file says of a print: the time that the slicer declares, if any,
/// and the totals of each layer. The index in the table is the number of
/// the layer.
#[derive(Debug)]
pub struct GcodeInfo {
    slicer_estimate: Option<u32>,
    layers: Vec<GcodeLineInfo>,
}

/// What a file says of a print, as plain values: the time that the slicer
/// declares in seconds, and the table of layers.
pub struct GcodeInfoView {
    pub slicer_estimate: Option<u32>,
    pub layers: Seq<GcodeLineInfo>,
}

impl View for GcodeInfo {
    type V = GcodeInfoView;

    closed spec fn view(&self) -> GcodeInfoView {
        GcodeInfoView { slicer_estimate: self.slicer_estimate, layers: self.layers@ }
    }
}

impl Default for GcodeInfo {
    /// Nothing read yet: no layers and no declared time.
    fn default() -> (info: GcodeInfo)
        ensures
            info@.layers == Seq::<GcodeLineInfo>::empty(),
            info@.slicer_estimate is None,
    {
        GcodeInfo::new()
    }
}

impl PartialEq for GcodeInfo {
    /// Whether both say the same of a print.
    fn eq(&self, other: &GcodeInfo) -> (equal: bool) {
        if self.slicer_estimate != other.slicer_estimate {
            return false;
        }
        let count: usize = self.layers.len();
        if other.layers.len() != count {
            return false;
        }
        let mut i: usize = 0;
        while i < count
            invariant
                i <= count,
                count == self.layers@.len(),
                count == other.layers@.len(),
                forall|j: int| 0 <= j < i ==> self.layers@[j] == other.layers@[j],
            decreases count - i,
        {
            if self.layers[i] != other.layers[i] {
                return false;
            }
            i += 1;
        }
        assert(self.layers@ =~= other.layers@);
        true
    }
}

impl PartialEqSpecImpl for GcodeInfo {
    open spec fn obeys_eq_spec() -> bool {
        true
    }

    open spec fn eq_spec(&self, other: &GcodeInfo) -> bool {
        self@ == other@
    }
}

impl GcodeInfo {
    #[verifier::type_invariant]
    spec fn well_formed(self) -> bool {
        layers_in_range(self.layers@)
    }

    /// Nothing read yet: no layers and no declared time.
    pub fn new() -> (info: GcodeInfo)
        ensures
            info@.layers == Seq::<GcodeLineInfo>::empty(),
            info@.slicer_estimate is None,
    {
        GcodeInfo { slicer_estimate: None, layers: Vec::new() }
    }

    /// The number of layers in the table.
    pub fn layer_count(&self) -> (count: usize)
        ensures
            count == self@.layers.len(),
            layers_in_range(self@.layers),
    {
        proof {
            use_type_invariant(self);
        }
        self.layers.len()
    }

    /// The table of layers.
    pub fn layers(&self) -> (table: &[GcodeLineInfo])
        ensures
            table@ == self@.layers,
            layers_in_range(self@.layers),
    {
        proof {
            use_type_invariant(self);
        }
        self.layers.as_slice()
    }

    /// The totals of the layer `index`, or `None` where the table has no
    /// such layer.
    pub fn layer(&self, index: usize) -> (totals: Option<GcodeLineInfo>)
        ensures
            index < self@.layers.len() ==> totals == Some(self@.layers[index as int]),
            index >= self@.layers.len() ==> totals.is_none(),
    {
        if index < self.layers.len() {
            Some(self.layers[index])
        } else {
            None
        }
    }

    /// The time that the slicer declares, or `None` where the file declares
    /// none.
    pub fn slicer_estimated_duration(&self) -> (declared: Option<Duration>)
        ensures
            match self@.slicer_estimate {
                Some(secs) => declared.is_some() && declared.unwrap()@ == secs * 1_000_000,
                None => declared.is_none(),
            },
    {
        match self.slicer_estimate {
            Some(secs) => Some(Duration::from_secs(secs as u64)),
            None => None,
        }
    }

    /// Sets the time that the slicer declares, in seconds.
    pub fn set_slicer_estimate(&mut self, secs: u32)
        ensures
            final(self)@.slicer_estimate == Some(secs),
            final(self)@.layers == old(self)@.layers,
    {
        proof {
            use_type_invariant(&*self);
        }
        self.slicer_estimate = Some(secs);
    }

    /// Adds a move of `distance` nanometres and `nanos` nanoseconds to the
    /// layer `index`, after growing the table to hold that layer. Where a
    /// total of that layer would leave its range, nothing changes and the
    /// move is refused.
    pub fn add_move(&mut self, index: u32, distance: u64, nanos: i128) -> (done: Result<
        (),
        ParseError,
    >)
        ensures
            final(self)@.slicer_estimate == old(self)@.slicer_estimate,
            match with_move(old(self)@.layers, index as nat, distance as nat, nanos as int) {
                Some(table) => done.is_ok() && final(self)@.layers == table,
                None => {
                    &&& done == Err::<(), ParseError>(ParseError::TotalOutOfRange)
                    &&& final(self)@.layers == old(self)@.layers
                },
            },
    {
        proof {
            use_type_invariant(&*self);
        }
        let place: usize = index as usize;
        let before: GcodeLineInfo = if place < self.layers.len() {
            self.layers[place]
        } else {
            GcodeLineInfo { distance: 0, time: 0 }
        };
        assert(before == grown(old(self)@.layers, index as nat)[index as int]);
        let distance_sum: u64 = match before.distance.checked_add(distance) {
            Some(sum) => sum,
            None => {
                return Err(ParseError::TotalOutOfRange);
            },
        };
        if nanos < -2 * (MAX_LAYER_NANOS as i128) || nanos > 2 * (MAX_LAYER_NANOS as i128) {
            return Err(ParseError::TotalOutOfRange);
        }
        let time_sum: i128 = before.time as i128 + nanos;
        if time_sum < -(MAX_LAYER_NANOS as i128) || time_sum > MAX_LAYER_NANOS as i128 {
            return Err(ParseError::TotalOutOfRange);
        }
        let mut table: Vec<GcodeLineInfo> = Vec::new();
        core::mem::swap(&mut self.layers, &mut table);
        while table.len() <= place
            invariant
                table@.len() <= place + 1 || table@.len() == old(self).layers@.len(),
                old(self).layers@.len() <= table@.len(),
                table@ =~= old(self).layers@ + Seq::new(
                    (table@.len() - old(self).layers@.len()) as nat,
                    |i: int| empty_layer(),
                ),
                place == index,
            decreases place + 1 - table@.len(),
        {
            table.push(GcodeLineInfo { distance: 0, time: 0 });
        }
        assert(table@ =~= grown(old(self)@.layers, index as nat));
        table[place] = GcodeLineInfo { distance: distance_sum, time: time_sum as i64 };
        core::mem::swap(&mut self.layers, &mut table);
        Ok(())
    }

    /// The time that the changes of layer take: nine and a half seconds for
    /// each layer of the table, whether it has moves or not.
    pub fn layer_change_time(&self) -> (time: Duration)
        ensures
            time@ == layer_change_micros(self@.layers),
            time@ == self@.layers.len() * 9_500_000,
    {
        proof {
            use_type_invariant(self);
        }
        let count: u64 = self.layers.len() as u64;
        Duration::from_micros(count * LAYER_CHANGE_MICROS)
    }

    /// The time that the laser is on: the sum of the times of all layers.
    pub fn laser_time(&self) -> (time: Duration)
        ensures
            time@ == laser_micros(self@.layers),
    {
        proof {
            use_type_invariant(self);
        }
        let count: usize = self.layers.len();
        let mut sum: i128 = 0;
        let mut i: usize = 0;
        while i < count
            invariant
                i <= count,
                count == self.layers@.len(),
                layers_in_range(self.layers@),
                sum == total_nanos(self.layers@.take(i as int)),
                -(i * MAX_LAYER_NANOS) <= sum <= i * MAX_LAYER_NANOS,
            decreases count - i,
        {
            proof {
                lemma_total_nanos_step(self.layers@, i as int);
            }
            sum = sum + self.layers[i].time as i128;
            i += 1;
        }
        assert(self.layers@.take(count as int) =~= self.layers@);
        if sum <= 0 {
            Duration::zero()
        } else {
            let secs: u64 = (sum / 1_000_000_000) as u64;
            let micros: u32 = ((sum % 1_000_000_000) / 1_000) as u32;
            Duration::from_parts(secs, micros)
        }
    }

    /// The whole print time: the changes of layer and the laser.
    pub fn total_time(&self) -> (time: Duration)
        ensures
            time@ == layer_change_micros(self@.layers) + laser_micros(self@.layers),
            time@ == total_micros(self@.layers),
    {
        proof {
            use_type_invariant(self);
            lemma_total_nanos_bound(self.layers@);
        }
        let change: Duration = self.layer_change_time();
        let laser: Duration = self.laser_time();
        change.plus(laser)
    }
}

} // verus!
