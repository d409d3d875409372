//! Constants that describe the game and the frame-rate speed correction table.

use vstd::prelude::*;

pub mod patterns;

verus! {

/// The address at which the game's executable image is loaded. It is wider
/// than a 32-bit address, so it is kept as a `u64`.
pub const IMAGE_BASE: u64 = 0x140000000;

/// The name under which the game's process runs.
pub const PROCESS_NAME: &'static str = "sekiro.exe";

/// The addresses of the patched values.
#[allow(dead_code)]
pub struct Addresses {
    framelock: usize,
    framelock_speed: usize,
    fov: usize,
}

/// The game's process, as the handle `P` through which its memory is
/// reached, and the size of its image (0: it is not measured).
pub struct Game<P> {
    process: P,
    size: usize,
}

impl<P> Game<P> {
    /// The size of the image is never measured: it stays 0.
    #[verifier::type_invariant]
    spec fn size_unmeasured(self) -> bool {
        self.size == 0
    }
}

impl<P: Copy> Game<P> {
    /// The handle of the game's process.
    pub closed spec fn process(&self) -> P {
        self.process
    }

    /// The recorded size of the game's image.
    pub closed spec fn size(&self) -> usize {
        self.size
    }

    /// The game reached through `process`, with no size recorded.
    pub fn new(process: P) -> (game: Game<P>)
        ensures
            game.process() == process,
            game.size() == 0,
    {
        Game { process, size: 0 }
    }

    pub fn get_process(&self) -> (process: P)
        ensures
            process == self.process(),
    {
        self.process
    }

    pub fn get_size(&self) -> (size: usize)
        ensures
            size == self.size(),
            size == 0,
    {
        proof {
            use_type_invariant(self);
        }
        self.size
    }
}

/// The default game speed correction, in ten-thousandths (30.0).
pub const FRAMELOCK_DEFAULT_VALUE: u32 = 300000;

/// The speed corrections that the game accepts, in ten-thousandths, in
/// increasing order (15.0, 16.0, 16.6667, ..., 150.0).
pub open spec fn speed_fix_matrix() -> Seq<u32> {
    seq![
        150000u32, 160000, 166667, 180000, 186875, 188516, 200000, 240000, 250000, 275000,
        300000, 320000, 385000, 400000, 480000, 495000, 500000, 572958, 600000, 640000,
        667500, 670000, 788438, 800000, 840000, 900000, 938000, 1000000, 1200000, 1270000,
        1280000, 1300000, 1400000, 1440000, 1500000,
    ]
}

/// The distance between half the frame limit and a speed correction, both
/// in ten-thousandths.
pub open spec fn speed_fix_distance(frame_limit: u32, value: u32) -> int {
    let ideal = frame_limit as int * 5000;
    if ideal >= value { ideal - value } else { value - ideal }
}

/// `i` indexes the speed correction that is nearest to half the frame
/// limit; among equally near ones it is the last of the table.
pub open spec fn is_speed_fix_index(frame_limit: u32, i: int) -> bool {
    let m = speed_fix_matrix();
    &&& 0 <= i < m.len()
    &&& forall|j: int| 0 <= j < m.len() ==> speed_fix_distance(frame_limit, m[i]) <= speed_fix_distance(frame_limit, #[trigger] m[j])
    &&& forall|j: int| i < j < m.len() ==> speed_fix_distance(frame_limit, m[i]) < speed_fix_distance(frame_limit, #[trigger] m[j])
}

/// The speed correction chosen for a frame limit, in ten-thousandths.
pub open spec fn speed_fix_value(frame_limit: u32) -> u32 {
    speed_fix_matrix()[choose|i: int| is_speed_fix_index(frame_limit, i)]
}

/// The correction table is strictly increasing.
pub proof fn lemma_speed_fix_matrix_increasing()
    ensures
        forall|i: int, j: int| 0 <= i < j < speed_fix_matrix().len() ==> speed_fix_matrix()[i] < speed_fix_matrix()[j],
{
    let m = speed_fix_matrix();
    assert(m.len() == 35);
    assert forall|i: int| 0 <= i < 34 implies #[trigger] m[i] < m[i + 1] by {
        assert(m[0] < m[1] && m[1] < m[2] && m[2] < m[3] && m[3] < m[4] && m[4] < m[5]);
        assert(m[5] < m[6] && m[6] < m[7] && m[7] < m[8] && m[8] < m[9] && m[9] < m[10]);
        assert(m[10] < m[11] && m[11] < m[12] && m[12] < m[13] && m[13] < m[14] && m[14] < m[15]);
        assert(m[15] < m[16] && m[16] < m[17] && m[17] < m[18] && m[18] < m[19] && m[19] < m[20]);
        assert(m[20] < m[21] && m[21] < m[22] && m[22] < m[23] && m[23] < m[24] && m[24] < m[25]);
        assert(m[25] < m[26] && m[26] < m[27] && m[27] < m[28] && m[28] < m[29] && m[29] < m[30]);
        assert(m[30] < m[31] && m[31] < m[32] && m[32] < m[33] && m[33] < m[34]);
    }
    assert forall|i: int, j: int| 0 <= i < j < m.len() implies m[i] < m[j] by {
        lemma_increasing_step(m, i, j);
    }
}

proof fn lemma_increasing_step(m: Seq<u32>, i: int, j: int)
    requires
        0 <= i < j < m.len(),
        forall|k: int| 0 <= k < m.len() - 1 ==> #[trigger] m[k] < m[k + 1],
    ensures
        m[i] < m[j],
    decreases j - i,
{
    if i + 1 < j {
        lemma_increasing_step(m, i + 1, j);
        assert(m[i] < m[i + 1]);
    } else {
        assert(m[i] < m[i + 1]);
    }
}

/// Two indices that both satisfy `is_speed_fix_index` for one frame limit
/// are the same.
proof fn lemma_speed_fix_index_unique(frame_limit: u32, i: int, j: int)
    requires
        is_speed_fix_index(frame_limit, i),
        is_speed_fix_index(frame_limit, j),
    ensures
        i == j,
{
    let m = speed_fix_matrix();
    if i < j {
        assert(speed_fix_distance(frame_limit, m[i]) < speed_fix_distance(frame_limit, m[j]));
        assert(speed_fix_distance(frame_limit, m[j]) <= speed_fix_distance(frame_limit, m[i]));
    } else if j < i {
        assert(speed_fix_distance(frame_limit, m[j]) < speed_fix_distance(frame_limit, m[i]));
        assert(speed_fix_distance(frame_limit, m[i]) <= speed_fix_distance(frame_limit, m[j]));
    }
}

/// The last index of a nearest entry among the first `k` entries of the table.
spec fn nearest_in_prefix(frame_limit: u32, k: int) -> int
    decreases k,
{
    if k <= 1 {
        0
    } else {
        let p = nearest_in_prefix(frame_limit, k - 1);
        let m = speed_fix_matrix();
        if speed_fix_distance(frame_limit, m[k - 1]) <= speed_fix_distance(frame_limit, m[p]) {
            k - 1
        } else {
            p
        }
    }
}

proof fn lemma_nearest_in_prefix(frame_limit: u32, k: int)
    requires
        1 <= k <= speed_fix_matrix().len(),
    ensures
        ({
            let p = nearest_in_prefix(frame_limit, k);
            let m = speed_fix_matrix();
            &&& 0 <= p < k
            &&& forall|j: int| 0 <= j < k ==> speed_fix_distance(frame_limit, m[p]) <= speed_fix_distance(frame_limit, #[trigger] m[j])
            &&& forall|j: int| p < j < k ==> speed_fix_distance(frame_limit, m[p]) < speed_fix_distance(frame_limit, #[trigger] m[j])
        }),
    decreases k,
{
    if k > 1 {
        lemma_nearest_in_prefix(frame_limit, k - 1);
    }
}

/// Every frame limit has a speed correction.
proof fn lemma_speed_fix_exists(frame_limit: u32)
    ensures
        is_speed_fix_index(frame_limit, choose|i: int| is_speed_fix_index(frame_limit, i)),
{
    lemma_nearest_in_prefix(frame_limit, 35);
    assert(is_speed_fix_index(frame_limit, nearest_in_prefix(frame_limit, 35)));
}

/// A higher frame limit never gets a smaller speed correction.
pub proof fn lemma_speed_fix_monotone(low: u32, high: u32)
    requires
        low <= high,
    ensures
        speed_fix_value(low) <= speed_fix_value(high),
{
    lemma_speed_fix_exists(low);
    lemma_speed_fix_exists(high);
    lemma_speed_fix_matrix_increasing();
    let m = speed_fix_matrix();
    let i = choose|i: int| is_speed_fix_index(low, i);
    let j = choose|i: int| is_speed_fix_index(high, i);
    if j < i {
        assert(speed_fix_distance(low, m[i]) <= speed_fix_distance(low, m[j]));
        assert(speed_fix_distance(high, m[j]) < speed_fix_distance(high, m[i]));
        assert(m[j] < m[i]);
        assert(false);
    } else if i < j {
        assert(m[i] < m[j]);
    }
}

/// Picks the game speed correction for a frame limit: the entry of the
/// correction table nearest to half the frame limit, the larger one on a
/// tie. The result is in ten-thousandths: 600000 stands for 60.0.
pub fn find_speed_fix_value(frame_limit: u32) -> (value: u32)
    ensures
        value == speed_fix_value(frame_limit),
{
    let table: [u32; 35] = [
        150000, 160000, 166667, 180000, 186875, 188516, 200000, 240000, 250000, 275000,
        300000, 320000, 385000, 400000, 480000, 495000, 500000, 572958, 600000, 640000,
        667500, 670000, 788438, 800000, 840000, 900000, 938000, 1000000, 1200000, 1270000,
        1280000, 1300000, 1400000, 1440000, 1500000,
    ];
    assert(table@ =~= speed_fix_matrix());
    let ideal: u64 = frame_limit as u64 * 5000;
    let mut closest: u32 = FRAMELOCK_DEFAULT_VALUE;
    let mut closest_distance: u64 = if ideal >= 300000 { ideal - 300000 } else { 300000 - ideal };
    let ghost mut at: int = 10;
    let mut k: usize = 0;
    while k < 35
        invariant
            0 <= k <= 35,
            table@ == speed_fix_matrix(),
            ideal == frame_limit as int * 5000,
            0 <= at < 35,
            closest == table@[at],
            closest_distance == speed_fix_distance(frame_limit, closest),
            closest_distance <= speed_fix_distance(frame_limit, table@[10]),
            forall|j: int| 0 <= j < k ==> closest_distance <= speed_fix_distance(frame_limit, #[trigger] table@[j]),
            forall|j: int| 0 <= j < k && speed_fix_distance(frame_limit, #[trigger] table@[j]) == closest_distance ==> j <= at,
            k <= 10 ==> at == 10 || at < k,
            k > 10 ==> at < k,
        decreases 35 - k,
    {
        let t = table[k];
        let d: u64 = if ideal >= t as u64 { ideal - t as u64 } else { t as u64 - ideal };
        if d <= closest_distance {
            closest = t;
            closest_distance = d;
            proof { at = k as int; }
        }
        k = k + 1;
    }
    assert(is_speed_fix_index(frame_limit, at));
    proof {
        lemma_speed_fix_index_unique(frame_limit, at, choose|i: int| is_speed_fix_index(frame_limit, i));
    }
    closest
}

} // verus!
