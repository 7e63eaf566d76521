use vstd::prelude::*;

verus! {

/// Level chosen by the variable-bit-scale code for a scaled distance: the
/// first row of the decoding table whose threshold `scaled` reaches.
pub open spec fn varbitscale_level(scaled: int) -> int {
    if scaled >= 3328 {
        4
    } else if scaled >= 1792 {
        3
    } else if scaled >= 1280 {
        2
    } else if scaled >= 512 {
        1
    } else {
        0
    }
}

/// Lowest scaled value of the table row for `level`.
pub open spec fn varbitscale_threshold(level: int) -> int {
    if level == 4 {
        3328
    } else if level == 3 {
        1792
    } else if level == 2 {
        1280
    } else if level == 1 {
        512
    } else {
        0
    }
}

/// Distance that the first scaled value of the row for `level` stands for.
pub open spec fn varbitscale_base(level: int) -> int {
    if level == 4 {
        0x4000
    } else if level == 3 {
        0x1000
    } else if level == 2 {
        0x800
    } else if level == 1 {
        0x200
    } else {
        0
    }
}

/// `2^n` for the scale levels 0 to 4.
pub open spec fn pow2(n: int) -> int {
    if n == 4 {
        16
    } else if n == 3 {
        8
    } else if n == 2 {
        4
    } else if n == 1 {
        2
    } else {
        1
    }
}

/// Distance that a scaled value stands for:
/// `base(level) + ((scaled - threshold(level)) << level)`.
pub open spec fn varbitscale_value(scaled: int) -> int {
    let level = varbitscale_level(scaled);
    varbitscale_base(level) + (scaled - varbitscale_threshold(level)) * pow2(level)
}

/// Decoding is undone by the table: from the level and the value, the scaled
/// input comes back as `threshold(level) + ((value - base(level)) >> level)`,
/// with no bits lost; each row's threshold decodes to that row's base.
pub proof fn lemma_varbitscale_round_trip(scaled: int)
    requires
        0 <= scaled,
    ensures
        ({
            let level = varbitscale_level(scaled);
            let value = varbitscale_value(scaled);
            &&& (value - varbitscale_base(level)) % pow2(level) == 0
            &&& varbitscale_threshold(level) + (value - varbitscale_base(level)) / pow2(level) == scaled
            &&& scaled == varbitscale_threshold(level) ==> value == varbitscale_base(level)
        }),
{
    let level = varbitscale_level(scaled);
    let offset = scaled - varbitscale_threshold(level);
    let p = pow2(level);
    assert(p == 1 || p == 2 || p == 4 || p == 8 || p == 16);
    assert(varbitscale_value(scaled) - varbitscale_base(level) == offset * p);
    vstd::arithmetic::div_mod::lemma_mod_multiples_basic(offset, p);
    vstd::arithmetic::div_mod::lemma_div_multiples_vanish(offset, p);
    assert(offset * p == p * offset) by (nonlinear_arith);
}

/// Larger scaled values stand for larger distances, so no two scaled values
/// decode to the same distance.
pub proof fn lemma_varbitscale_increasing(a: int, b: int)
    requires
        0 <= a < b,
    ensures
        varbitscale_value(a) < varbitscale_value(b),
{
    // Each row starts where the one below it ends.
    assert(varbitscale_value(a) < varbitscale_base(varbitscale_level(a) + 1) || varbitscale_level(a) == 4);
    if varbitscale_level(a) == varbitscale_level(b) {
        let p = pow2(varbitscale_level(a));
        let t = varbitscale_threshold(varbitscale_level(a));
        assert((a - t) * p < (b - t) * p) by (nonlinear_arith)
            requires
                a < b,
                p > 0,
        ;
    }
}

/// Expands a variable-bit-scale distance. Returns the distance and stores the
/// scale level in `scale_level`.
pub fn varbitscale_decode(scaled: u32, scale_level: &mut u32) -> (r: u32)
    requires
        varbitscale_value(scaled as int) <= u32::MAX,
    ensures
        r == varbitscale_value(scaled as int),
        *final(scale_level) == varbitscale_level(scaled as int),
{
    if scaled >= 3328 {
        *scale_level = 4;
        0x4000 + (scaled - 3328) * 16
    } else if scaled >= 1792 {
        *scale_level = 3;
        0x1000 + (scaled - 1792) * 8
    } else if scaled >= 1280 {
        *scale_level = 2;
        0x800 + (scaled - 1280) * 4
    } else if scaled >= 512 {
        *scale_level = 1;
        0x200 + (scaled - 512) * 2
    } else {
        *scale_level = 0;
        scaled
    }
}


/// Number of bytes in one ultra-capsule frame.
pub const FRAME_LEN: usize = 132;

/// Number of 32-bit cabins in one frame.
pub const CABINS_PER_FRAME: usize = 32;

/// Sync value that the high nibbles of the first two bytes must spell.
pub const FRAME_SYNC: u8 = 0xA5;

/// Why a 132-byte frame was not accepted.
#[derive(Debug, Clone, Copy, PartialEq, Eq, Structural)]
pub enum ScanPacketParseError {
    /// The high nibbles of bytes 0 and 1 do not spell `0xA5`: the stream is
    /// not aligned on a frame.
    SyncByteMismatch,
    /// The checksum nibbles do not match the XOR of bytes 2..132.
    ChecksumMismatch,
}

/// One decoded ultra-capsule frame.
pub struct ScanPacket {
    /// Capture time in nanoseconds since the program started.
    pub timestamp: u64,
    pub start_bit: bool,
    /// Angle of the first cabin, in 1/64 degree.
    pub start_angle_q6: u16,
    pub ultra_cabins: [u32; 32],
}

/// The little-endian 32-bit word at `at`.
pub open spec fn le_u32(b: Seq<u8>, at: int) -> int {
    b[at] + b[at + 1] * 0x100 + b[at + 2] * 0x1_0000 + b[at + 3] * 0x100_0000
}

/// `(b0 & 0xF0) | (b1 >> 4)`: the high nibbles of the first two bytes.
pub open spec fn frame_sync(b: Seq<u8>) -> int {
    (b[0] / 16) * 16 + b[1] / 16
}

/// `(b0 & 0x0F) | (b1 << 4)`: the low nibbles of the first two bytes.
pub open spec fn frame_checksum(b: Seq<u8>) -> int {
    b[0] % 16 + (b[1] % 16) * 16
}

/// XOR of the bytes `b[from..to]`.
pub open spec fn xor_bytes(b: Seq<u8>, from: int, to: int) -> u8
    decreases to - from,
{
    if to <= from {
        0
    } else {
        xor_bytes(b, from, to - 1) ^ b[to - 1]
    }
}

/// The frame's checksum nibbles agree with the XOR of its payload.
pub open spec fn frame_checksum_ok(b: Seq<u8>) -> bool {
    frame_checksum(b) == xor_bytes(b, 2, FRAME_LEN as int) as int
}

/// Bits 0..15 of bytes 2 and 3: the start angle in 1/64 degree.
pub open spec fn frame_start_angle(b: Seq<u8>) -> int {
    b[2] + (b[3] % 128) * 256
}

impl ScanPacket {
    /// Decodes one 132-byte frame captured at `timestamp`.
    pub fn from_buffer(bytes: &[u8; 132], timestamp: u64) -> (r: Result<ScanPacket, ScanPacketParseError>)
        ensures
            r is Ok <==> frame_sync(bytes@) == FRAME_SYNC && frame_checksum_ok(bytes@),
            r == Err::<ScanPacket, ScanPacketParseError>(ScanPacketParseError::SyncByteMismatch)
                <==> frame_sync(bytes@) != FRAME_SYNC,
            r == Err::<ScanPacket, ScanPacketParseError>(ScanPacketParseError::ChecksumMismatch)
                <==> frame_sync(bytes@) == FRAME_SYNC && !frame_checksum_ok(bytes@),
            r is Ok ==> {
                let p = r->Ok_0;
                &&& p.timestamp == timestamp
                &&& p.start_bit == (bytes@[3] >= 128)
                &&& p.start_angle_q6 == frame_start_angle(bytes@)
                &&& forall|i: int|
                    0 <= i < 32 ==> #[trigger] p.ultra_cabins@[i] == le_u32(bytes@, 4 + 4 * i)
            },
    {
        let b0 = bytes[0];
        let b1 = bytes[1];
        let sync = (b0 & 0xF0) | (b1 >> 4);
        assert(((b0 & 0xF0) | (b1 >> 4)) == (b0 / 16) * 16 + b1 / 16) by (bit_vector);
        if sync != FRAME_SYNC {
            return Err(ScanPacketParseError::SyncByteMismatch);
        }
        let checksum = (b0 & 0x0F) | ((b1 & 0x0F) << 4);
        assert(((b0 & 0x0F) | ((b1 & 0x0F) << 4)) == b0 % 16 + (b1 % 16) * 16) by (bit_vector);
        let mut check: u8 = 0;
        let mut i: usize = 2;
        while i < FRAME_LEN
            invariant
                2 <= i <= FRAME_LEN,
                check == xor_bytes(bytes@, 2, i as int),
            decreases FRAME_LEN - i,
        {
            check = check ^ bytes[i];
            i = i + 1;
        }
        if check != checksum {
            return Err(ScanPacketParseError::ChecksumMismatch);
        }
        let b2 = bytes[2];
        let b3 = bytes[3];
        let start_bit = b3 & 0x80 != 0;
        assert((b3 & 0x80 != 0) == (b3 >= 128)) by (bit_vector);
        let start_angle_q6 = (b2 as u16) | (((b3 & 0x7F) as u16) << 8);
        assert(((b2 as u16) | (((b3 & 0x7F) as u16) << 8)) == b2 + (b3 % 128) * 256)
            by (bit_vector);
        let mut ultra_cabins = [0u32; 32];
        let mut k: usize = 0;
        while k < CABINS_PER_FRAME
            invariant
                k <= CABINS_PER_FRAME,
                forall|c: int| 0 <= c < k ==> #[trigger] ultra_cabins@[c] == le_u32(bytes@, 4 + 4 * c),
            decreases CABINS_PER_FRAME - k,
        {
            let at = 4 + 4 * k;
            let word = bytes[at] as u32 + (bytes[at + 1] as u32) * 0x100
                + (bytes[at + 2] as u32) * 0x1_0000 + (bytes[at + 3] as u32) * 0x100_0000;
            ultra_cabins[k] = word;
            k = k + 1;
        }
        Ok(ScanPacket { timestamp, start_bit, start_angle_q6, ultra_cabins })
    }
}

/// Degrees in a full turn, in 1/64 degree.
pub const FULL_TURN_Q6: u32 = 23040;

/// A range sample: angle in 1/64 degree, distance in millimetres, and which
/// of the cabin's three sub-samples it was.
#[derive(Debug, Clone, Copy, PartialEq, Eq, Structural)]
pub struct LidarPoint {
    pub angle_q6: u16,
    pub distance_q0: u32,
    pub index: u8,
}

/// A 10-bit two's-complement field.
pub open spec fn signed10(u: int) -> int {
    if u >= 512 {
        u - 1024
    } else {
        u
    }
}

/// The two prediction values that mark a sub-sample as invalid.
pub open spec fn predict_invalid(p: int) -> bool {
    p == -512 || p == 511
}

/// What `((x << 2) as u32) >> 2` keeps of `x`: its low 30 bits.
pub open spec fn low30(x: int) -> int {
    x % 0x4000_0000
}

/// A 12-bit scaled value expands to at most `0x4000 + (4095 - 3328) * 16`.
proof fn lemma_varbitscale_12bit_bound(raw: int)
    requires
        0 <= raw < 4096,
    ensures
        0 <= varbitscale_value(raw) <= 0x4000 + 767 * 16,
{
}

/// Distance of the predicted sub-sample: `base + (predict << level)`,
/// or 0 when the prediction is one of the sentinels.
pub open spec fn predicted_distance(base: int, predict: int, level: int) -> int {
    if predict_invalid(predict) {
        0
    } else {
        low30(base + predict * pow2(level))
    }
}

/// Distance of sub-sample `j` of a cabin word `w`, where `next_raw` is the
/// 12-bit major field of the following cabin.
pub open spec fn cabin_distance(w: int, next_raw: int, j: int) -> int {
    let major1 = varbitscale_value(w % 4096);
    let level1 = varbitscale_level(w % 4096);
    let major2 = varbitscale_value(next_raw);
    let level2 = varbitscale_level(next_raw);
    let gap_filled = major1 == 0 && major2 != 0;
    let base1 = if gap_filled { major2 } else { major1 };
    let base_level1 = if gap_filled { level2 } else { level1 };
    if j == 0 {
        major1
    } else if j == 1 {
        predicted_distance(base1, signed10((w / 4096) % 1024), base_level1)
    } else {
        predicted_distance(major2, signed10(w / 0x40_0000), level2)
    }
}

/// Angle advance from one frame to the next, in `[0, 360)` degrees.
pub open spec fn angle_step(prev: ScanPacket, next: ScanPacket) -> int {
    (next.start_angle_q6 - prev.start_angle_q6) % (FULL_TURN_Q6 as int)
}

/// The word after cabin `i` of `prev`: the first cabin of `next` for the last.
pub open spec fn following_cabin(prev: ScanPacket, next: ScanPacket, i: int) -> int {
    if i == 31 {
        next.ultra_cabins@[0] as int
    } else {
        prev.ultra_cabins@[i + 1] as int
    }
}

/// Sub-sample `j` of cabin `i` of `prev`, before zero distances are dropped.
pub open spec fn cabin_point(prev: ScanPacket, next: ScanPacket, i: int, j: int) -> LidarPoint {
    let start = prev.start_angle_q6 as int;
    LidarPoint {
        angle_q6: ((start + angle_step(prev, next) * (3 * i + j) / 96) % (FULL_TURN_Q6 as int)) as u16,
        distance_q0: cabin_distance(
            prev.ultra_cabins@[i] as int,
            following_cabin(prev, next, i) % 4096,
            j,
        ) as u32,
        index: j as u8,
    }
}

/// The points of the first `n` sub-samples of `prev` (three per cabin, in
/// cabin order), keeping those with a non-zero distance.
pub open spec fn cabin_points(prev: ScanPacket, next: ScanPacket, n: int) -> Seq<LidarPoint>
    decreases n,
{
    if n <= 0 {
        seq![]
    } else {
        let rest = cabin_points(prev, next, n - 1);
        let p = cabin_point(prev, next, (n - 1) / 3, (n - 1) % 3);
        if p.distance_q0 != 0 {
            rest.push(p)
        } else {
            rest
        }
    }
}

/// The points that the frame `prev` holds, read with the frame `next` that
/// followed it.
pub open spec fn frame_points(prev: ScanPacket, next: ScanPacket) -> Seq<LidarPoint> {
    cabin_points(prev, next, 96)
}

fn scale_factor(level: u32) -> (r: i32)
    requires
        level <= 4,
    ensures
        r == pow2(level as int),
{
    if level == 4 {
        16
    } else if level == 3 {
        8
    } else if level == 2 {
        4
    } else if level == 1 {
        2
    } else {
        1
    }
}

fn predict_sub_sample(base: u32, predict: i32, level: u32) -> (r: u32)
    requires
        base <= 0x1_0000 + 4095 * 16,
        -512 <= predict < 512,
        level <= 4,
    ensures
        r == predicted_distance(base as int, predict as int, level as int),
{
    if predict == -512 || predict == 511 {
        0
    } else {
        let sum: i32 = base as i32 + predict * scale_factor(level);
        if sum >= 0 {
            sum as u32
        } else {
            (sum + 0x4000_0000) as u32
        }
    }
}

/// Splits cabin `i` of `prev` into its three sub-samples.
fn decode_cabin(prev: &ScanPacket, next: &ScanPacket, i: usize) -> (r: [LidarPoint; 3])
    requires
        i < 32,
    ensures
        forall|j: int| 0 <= j < 3 ==> #[trigger] r@[j] == cabin_point(*prev, *next, i as int, j),
{
    let w = prev.ultra_cabins[i];
    let following = if i == 31 {
        next.ultra_cabins[0]
    } else {
        prev.ultra_cabins[i + 1]
    };
    let major1_raw = w & 0xFFF;
    let major2_raw = following & 0xFFF;
    let predict1_raw = (w >> 12) & 0x3FF;
    let predict2_raw = w >> 22;
    assert(w & 0xFFF == w % 4096) by (bit_vector);
    assert(following & 0xFFF == following % 4096) by (bit_vector);
    assert((w >> 12) & 0x3FF == (w / 4096) % 1024) by (bit_vector);
    assert(w >> 22 == w / 0x40_0000) by (bit_vector);
    let predict1: i32 = if predict1_raw >= 512 {
        predict1_raw as i32 - 1024
    } else {
        predict1_raw as i32
    };
    let predict2: i32 = if predict2_raw >= 512 {
        predict2_raw as i32 - 1024
    } else {
        predict2_raw as i32
    };
    let mut level1: u32 = 0;
    let mut level2: u32 = 0;
    let major1 = varbitscale_decode(major1_raw, &mut level1);
    let major2 = varbitscale_decode(major2_raw, &mut level2);
    assert(major1_raw < 4096 && major2_raw < 4096) by {
        assert(w & 0xFFF < 4096) by (bit_vector);
        assert(following & 0xFFF < 4096) by (bit_vector);
    }
    proof {
        lemma_varbitscale_12bit_bound(major1_raw as int);
        lemma_varbitscale_12bit_bound(major2_raw as int);
    }
    let mut base1 = major1;
    if major1 == 0 && major2 != 0 {
        base1 = major2;
        level1 = level2;
    }
    let d0 = major1;
    let d1 = predict_sub_sample(base1, predict1, level1);
    let d2 = predict_sub_sample(major2, predict2, level2);

    let start = prev.start_angle_q6 as u32;
    let step = (next.start_angle_q6 as u32 + 3 * FULL_TURN_Q6 - start) % FULL_TURN_Q6;
    assert(step == angle_step(*prev, *next)) by {
        let d = next.start_angle_q6 as int - prev.start_angle_q6 as int;
        vstd::arithmetic::div_mod::lemma_mod_add_multiples_vanish(d + 2 * FULL_TURN_Q6 as int, FULL_TURN_Q6 as int);
        vstd::arithmetic::div_mod::lemma_mod_add_multiples_vanish(d + FULL_TURN_Q6 as int, FULL_TURN_Q6 as int);
        vstd::arithmetic::div_mod::lemma_mod_add_multiples_vanish(d, FULL_TURN_Q6 as int);
    }
    let ti = 3 * i as u32;
    assert(step * ti <= step * (ti + 1) <= step * (ti + 2) < 23040 * 96) by (nonlinear_arith)
        requires
            step < 23040,
            ti + 2 < 96,
    ;
    let a0 = ((start + step * ti / 96) % FULL_TURN_Q6) as u16;
    let a1 = ((start + step * (ti + 1) / 96) % FULL_TURN_Q6) as u16;
    let a2 = ((start + step * (ti + 2) / 96) % FULL_TURN_Q6) as u16;
    [
        LidarPoint { angle_q6: a0, distance_q0: d0, index: 0 },
        LidarPoint { angle_q6: a1, distance_q0: d1, index: 1 },
        LidarPoint { angle_q6: a2, distance_q0: d2, index: 2 },
    ]
}

/// The points of frame `prev`, using `next` (the frame that followed it) for
/// the last cabin's neighbour and for the angle span. Points with a zero
/// distance (out of range) are dropped.
pub fn decode_frame_points(prev: &ScanPacket, next: &ScanPacket) -> (points: Vec<LidarPoint>)
    ensures
        points@ == frame_points(*prev, *next),
{
    let mut points: Vec<LidarPoint> = Vec::new();
    let mut i: usize = 0;
    while i < CABINS_PER_FRAME
        invariant
            i <= CABINS_PER_FRAME,
            points@ == cabin_points(*prev, *next, 3 * i),
        decreases CABINS_PER_FRAME - i,
    {
        let cabin = decode_cabin(prev, next, i);
        let mut j: usize = 0;
        while j < 3
            invariant
                i < CABINS_PER_FRAME,
                j <= 3,
                points@ == cabin_points(*prev, *next, 3 * i + j),
                forall|k: int| 0 <= k < 3 ==> #[trigger] cabin@[k] == cabin_point(*prev, *next, i as int, k),
            decreases 3 - j,
        {
            let p = cabin[j];
            assert((3 * i + j) / 3 == i && (3 * i + j) % 3 == j) by (nonlinear_arith)
                requires j < 3;
            if p.distance_q0 != 0 {
                points.push(p);
            }
            j = j + 1;
        }
        i = i + 1;
    }
    points
}

/// Fewest points that a scan needs to be worth matching against.
pub const MIN_SCAN_POINTS: usize = 10;

/// One sweep of the lidar: points in the order they were measured.
#[derive(Debug, Clone)]
pub struct LidarScan {
    pub points: Vec<LidarPoint>,
}

impl LidarScan {
    /// Whether the scan holds at least `min_points` points; a sweep that
    /// has only just started holds a handful and is not matched against.
    pub fn has_min_points(&self, min_points: usize) -> (r: bool)
        ensures
            r == (self.points@.len() >= min_points),
    {
        self.points.len() >= min_points
    }
}

/// Angles never decrease along the points of a scan.
pub open spec fn angles_sorted(points: Seq<LidarPoint>) -> bool {
    forall|a: int, b: int|
        0 <= a < b < points.len() ==> (#[trigger] points[a]).angle_q6 <= (#[trigger] points[b]).angle_q6
}

/// The points of each scan.
pub open spec fn scan_points(scans: Seq<LidarScan>) -> Seq<Seq<LidarPoint>> {
    scans.map_values(|s: LidarScan| s.points@)
}

/// Appends a point to the newest scan, or opens a new scan with it when its
/// angle is below that of the newest scan's last point (the sweep wrapped).
pub open spec fn after_point(scans: Seq<Seq<LidarPoint>>, p: LidarPoint) -> Seq<Seq<LidarPoint>> {
    if scans.len() == 0 {
        seq![seq![p]]
    } else {
        let current = scans.last();
        if current.len() > 0 && current.last().angle_q6 > p.angle_q6 {
            scans.push(seq![p])
        } else {
            scans.update(scans.len() - 1, current.push(p))
        }
    }
}

/// The scans after the points `pts` arrived in order.
pub open spec fn after_points(scans: Seq<Seq<LidarPoint>>, pts: Seq<LidarPoint>) -> Seq<Seq<LidarPoint>>
    decreases pts.len(),
{
    if pts.len() == 0 {
        scans
    } else {
        after_point(after_points(scans, pts.drop_last()), pts.last())
    }
}

/// Every scan is sorted by angle.
pub open spec fn scans_sorted(scans: Seq<Seq<LidarPoint>>) -> bool {
    forall|k: int| 0 <= k < scans.len() ==> angles_sorted(#[trigger] scans[k])
}

/// Every scan holds a point.
pub open spec fn scans_nonempty(scans: Seq<Seq<LidarPoint>>) -> bool {
    forall|k: int| 0 <= k < scans.len() ==> (#[trigger] scans[k]).len() > 0
}

/// Each scan after the first starts below the angle where the one before it
/// ended: scans are split exactly where the sweep wrapped.
pub open spec fn scans_split_on_wrap(scans: Seq<Seq<LidarPoint>>) -> bool {
    forall|k: int|
        0 < k < scans.len() ==> scans[k - 1].last().angle_q6 > (#[trigger] scans[k])[0].angle_q6
}

/// Assembling scans never drops, adds or reorders a point: the scans read
/// end to end are the points held before, followed by the new points.
pub proof fn lemma_after_points_keeps_points(scans: Seq<Seq<LidarPoint>>, pts: Seq<LidarPoint>)
    ensures
        after_points(scans, pts).flatten() == scans.flatten() + pts,
    decreases pts.len(),
{
    if pts.len() == 0 {
        assert(scans.flatten() + pts =~= scans.flatten());
    } else {
        let before = after_points(scans, pts.drop_last());
        lemma_after_points_keeps_points(scans, pts.drop_last());
        lemma_after_point_appends(before, pts.last());
        assert(scans.flatten() + pts.drop_last() + seq![pts.last()] =~= scans.flatten() + pts);
    }
}

/// One point lands at the end of the scans read end to end.
proof fn lemma_after_point_appends(scans: Seq<Seq<LidarPoint>>, p: LidarPoint)
    ensures
        after_point(scans, p).flatten() == scans.flatten() + seq![p],
{
    let after = after_point(scans, p);
    scans.lemma_flatten_and_flatten_alt_are_equivalent();
    after.lemma_flatten_and_flatten_alt_are_equivalent();
    if scans.len() == 0 {
        assert(after.drop_last() =~= Seq::<Seq<LidarPoint>>::empty());
        assert(after.drop_last().flatten_alt() =~= Seq::<LidarPoint>::empty());
        assert(scans.flatten_alt() =~= Seq::<LidarPoint>::empty());
        assert(after.flatten_alt() =~= seq![p]);
    } else {
        let current = scans.last();
        if current.len() > 0 && current.last().angle_q6 > p.angle_q6 {
            assert(after.drop_last() =~= scans);
        } else {
            assert(after.drop_last() =~= scans.drop_last());
            assert(scans.drop_last().flatten_alt() + current.push(p) =~= scans.drop_last().flatten_alt()
                + current + seq![p]);
        }
    }
}

/// Turns the frame stream into scans. Each frame is decoded once the frame
/// after it has arrived; its points go to the newest scan until the angle
/// wraps.
pub struct LidarEngine {
    pub scan_packets: Vec<ScanPacket>,
    pub scans: Vec<LidarScan>,
}

impl LidarEngine {
    pub open spec fn scans_view(&self) -> Seq<Seq<LidarPoint>> {
        scan_points(self.scans@)
    }

    /// Every scan held is non-empty and sorted by angle, and a scan starts
    /// exactly where the angle dropped.
    pub open spec fn wf(&self) -> bool {
        &&& scans_sorted(self.scans_view())
        &&& scans_nonempty(self.scans_view())
        &&& scans_split_on_wrap(self.scans_view())
    }

    /// An engine that has seen no frame.
    pub fn new() -> (r: Self)
        ensures
            r.scan_packets@.len() == 0,
            r.scans@.len() == 0,
            r.wf(),
    {
        LidarEngine { scan_packets: Vec::new(), scans: Vec::new() }
    }

    fn add_point(&mut self, point: LidarPoint)
        requires
            old(self).wf(),
        ensures
            final(self).wf(),
            final(self).scans_view() == after_point(old(self).scans_view(), point),
            final(self).scan_packets == old(self).scan_packets,
    {
        let ghost before = self.scans_view();
        if self.scans.len() == 0 {
            self.scans.push(LidarScan { points: Vec::new() });
        }
        let last = self.scans.len() - 1;
        let n = self.scans[last].points.len();
        if n > 0 && self.scans[last].points[n - 1].angle_q6 > point.angle_q6 {
            let mut points = Vec::new();
            points.push(point);
            self.scans.push(LidarScan { points });
            assert(self.scans_view() =~= before.push(seq![point]));
        } else {
            let mut current = self.scans.pop().unwrap();
            current.points.push(point);
            self.scans.push(current);
            proof {
                if before.len() == 0 {
                    assert(self.scans_view() =~= seq![seq![point]]);
                } else {
                    assert(self.scans_view() =~= before.update(
                        before.len() - 1,
                        before.last().push(point),
                    ));
                }
            }
        }
    }

    /// Takes the next frame. Once two frames have arrived, the points of the
    /// one before `packet` are added to the scans. Returns whether that
    /// opened a new scan, that is whether the scan before the newest one has
    /// just been completed (see `get_most_recent_scan`).
    pub fn push_packet(&mut self, packet: ScanPacket) -> (completed: bool)
        requires
            old(self).wf(),
        ensures
            final(self).wf(),
            final(self).scan_packets@ == old(self).scan_packets@.push(packet),
            final(self).scans_view() == if old(self).scan_packets@.len() == 0 {
                old(self).scans_view()
            } else {
                after_points(
                    old(self).scans_view(),
                    frame_points(old(self).scan_packets@.last(), packet),
                )
            },
            completed == (final(self).scans@.len() >= 2 && final(self).scans@.len() != old(
                self,
            ).scans@.len()),
    {
        let scan_count = self.scans.len();
        self.scan_packets.push(packet);
        let n = self.scan_packets.len();
        if n > 1 {
            let points = decode_frame_points(&self.scan_packets[n - 2], &self.scan_packets[n - 1]);
            let ghost start = self.scans_view();
            let ghost packets = self.scan_packets@;
            let mut k: usize = 0;
            while k < points.len()
                invariant
                    k <= points@.len(),
                    self.wf(),
                    self.scan_packets@ == packets,
                    self.scans_view() == after_points(start, points@.take(k as int)),
                decreases points@.len() - k,
            {
                assert(points@.take(k as int + 1).drop_last() =~= points@.take(k as int));
                self.add_point(points[k]);
                k = k + 1;
            }
            assert(points@.take(points@.len() as int) =~= points@);
        }
        self.scans.len() >= 2 && scan_count != self.scans.len()
    }

    /// Decodes a 132-byte frame read at `timestamp` and adds it to the
    /// scans. A frame that fails to decode changes nothing and its error is
    /// returned: on a sync mismatch the reader should drop one byte to
    /// realign, on a checksum mismatch the frame is lost. `Ok(true)` when a
    /// scan has just been completed (see `get_most_recent_scan`).
    pub fn process_frame(&mut self, frame: &[u8; 132], timestamp: u64) -> (r: Result<
        bool,
        ScanPacketParseError,
    >)
        requires
            old(self).wf(),
        ensures
            final(self).wf(),
            r is Ok <==> frame_sync(frame@) == FRAME_SYNC && frame_checksum_ok(frame@),
            r is Err ==> *final(self) == *old(self),
            r == Err::<bool, ScanPacketParseError>(ScanPacketParseError::SyncByteMismatch)
                <==> frame_sync(frame@) != FRAME_SYNC,
            r is Ok ==> {
                let p = final(self).scan_packets@.last();
                &&& final(self).scan_packets@ == old(self).scan_packets@.push(p)
                &&& p.timestamp == timestamp
                &&& p.start_angle_q6 == frame_start_angle(frame@)
                &&& p.start_bit == (frame@[3] >= 128)
                &&& forall|i: int|
                    0 <= i < 32 ==> #[trigger] p.ultra_cabins@[i] == le_u32(frame@, 4 + 4 * i)
                &&& final(self).scans_view() == if old(self).scan_packets@.len() == 0 {
                    old(self).scans_view()
                } else {
                    after_points(old(self).scans_view(), frame_points(old(self).scan_packets@.last(), p))
                }
                &&& r->Ok_0 == (final(self).scans@.len() >= 2 && final(self).scans@.len() != old(
                    self,
                ).scans@.len())
            },
    {
        match ScanPacket::from_buffer(frame, timestamp) {
            Ok(packet) => Ok(self.push_packet(packet)),
            Err(e) => Err(e),
        }
    }

    /// The newest complete scan: the one before the scan still being filled.
    pub fn get_most_recent_scan(&self) -> (r: Option<&LidarScan>)
        ensures
            self.scans@.len() >= 2 ==> r == Some(&self.scans@[self.scans@.len() - 2]),
            self.scans@.len() < 2 ==> r is None,
    {
        if self.scans.len() >= 2 {
            Some(&self.scans[self.scans.len() - 2])
        } else {
            None
        }
    }
}

/// Health of the lidar task.
#[derive(Debug, Clone, Copy, PartialEq, Eq, Structural)]
pub enum LidarStatus {
    Initializing,
    Healthy,
    ProtocolError,
    UnknownError,
}

/// Requests without a payload.
#[derive(Debug, Clone, Copy, PartialEq, Eq, Structural)]
pub enum LidarRequest {
    Stop,
    Reset,
    GetDeviceInfo,
    GetDeviceHealth,
}

/// Start byte of every request and every response descriptor.
pub const REQUEST_START: u8 = 0xA5;

/// Second byte of every response descriptor.
pub const RESPONSE_START: u8 = 0x5A;

pub open spec fn request_opcode(r: LidarRequest) -> u8 {
    match r {
        LidarRequest::Stop => 0x25,
        LidarRequest::Reset => 0x40,
        LidarRequest::GetDeviceInfo => 0x50,
        LidarRequest::GetDeviceHealth => 0x52,
    }
}

impl LidarRequest {
    /// The two bytes sent for the request: the start byte and the opcode.
    pub fn to_bytes(&self) -> (r: [u8; 2])
        ensures
            r@ == seq![REQUEST_START, request_opcode(*self)],
    {
        let opcode: u8 = match self {
            LidarRequest::Stop => 0x25,
            LidarRequest::Reset => 0x40,
            LidarRequest::GetDeviceInfo => 0x50,
            LidarRequest::GetDeviceHealth => 0x52,
        };
        let r = [REQUEST_START, opcode];
        assert(r@ =~= seq![REQUEST_START, opcode]);
        r
    }
}

/// The request that starts an express scan, with its payload and checksum.
pub open spec fn express_scan_request_spec() -> Seq<u8> {
    seq![0xA5u8, 0x82, 0x05, 0x03, 0x00, 0x00, 0x00, 0x00, 0x21]
}

/// The descriptor that acknowledges an express scan.
pub open spec fn express_scan_descriptor_spec() -> Seq<u8> {
    seq![0xA5u8, 0x5A, 0x84, 0x00, 0x00, 0x40, 0x84]
}

/// Bytes that start an express scan.
pub fn express_scan_request() -> (r: [u8; 9])
    ensures
        r@ == express_scan_request_spec(),
{
    let r = [0xA5u8, 0x82, 0x05, 0x03, 0x00, 0x00, 0x00, 0x00, 0x21];
    assert(r@ =~= express_scan_request_spec());
    r
}

/// Whether a 7-byte response descriptor acknowledges the express scan.
pub fn is_express_scan_descriptor(descriptor: &[u8; 7]) -> (r: bool)
    ensures
        r == (descriptor@ == express_scan_descriptor_spec()),
{
    let expected = [0xA5u8, 0x5A, 0x84, 0x00, 0x00, 0x40, 0x84];
    assert(expected@ =~= express_scan_descriptor_spec());
    let mut i: usize = 0;
    while i < 7
        invariant
            i <= 7,
            expected@ == express_scan_descriptor_spec(),
            forall|k: int| 0 <= k < i ==> descriptor@[k] == expected@[k],
        decreases 7 - i,
    {
        if descriptor[i] != expected[i] {
            return false;
        }
        i = i + 1;
    }
    assert(descriptor@ =~= expected@);
    true
}

/// Replies to a request.
#[derive(Debug)]
pub enum LidarResponse {
    DeviceInfo { model: u8, firmware_minor: u8, firmware_major: u8, hardware: u8, serial: [u8; 16] },
}

impl LidarResponse {
    /// Reads a device-info reply from its 7-byte descriptor and 20-byte
    /// payload. `None` when the descriptor does not start with `A5 5A`.
    pub fn from_bytes(descriptor: &[u8; 7], payload: &[u8; 20]) -> (r: Option<LidarResponse>)
        ensures
            r is None <==> (descriptor@[0] != REQUEST_START || descriptor@[1] != RESPONSE_START),
            r matches Some(LidarResponse::DeviceInfo { model, firmware_minor, firmware_major, hardware, serial }) ==> {
                &&& model == payload@[0]
                &&& firmware_minor == payload@[1]
                &&& firmware_major == payload@[2]
                &&& hardware == payload@[3]
                &&& serial@ == payload@.subrange(4, 20)
            },
    {
        if descriptor[0] != REQUEST_START || descriptor[1] != RESPONSE_START {
            return None;
        }
        let mut serial = [0u8; 16];
        let mut i: usize = 0;
        while i < 16
            invariant
                i <= 16,
                forall|k: int| 0 <= k < i ==> #[trigger] serial@[k] == payload@[k + 4],
            decreases 16 - i,
        {
            serial[i] = payload[i + 4];
            i = i + 1;
        }
        assert(serial@ =~= payload@.subrange(4, 20));
        Some(
            LidarResponse::DeviceInfo {
                model: payload[0],
                firmware_minor: payload[1],
                firmware_major: payload[2],
                hardware: payload[3],
                serial,
            },
        )
    }
}

/// Wait before looking for the port again.
pub const REOPEN_DELAY_MS: u64 = 10;

/// Wait before reopening a port that was reported busy.
pub const BUSY_DELAY_MS: u64 = 1000;

/// Wait between two polls of the stream.
pub const POLL_PERIOD_MS: u64 = 10;

/// Where the lidar task stands with its serial port.
#[derive(Debug, Clone, Copy, PartialEq, Eq, Structural)]
pub enum LidarLink {
    /// Looking for the port and opening it.
    Searching,
    /// Stopping the device and starting an express scan.
    Handshaking,
    /// Reading frames.
    Streaming,
}

/// How the last piece of outside work ended.
#[derive(Debug, Clone, Copy, PartialEq, Eq)]
pub enum LidarEvent {
    Opened,
    /// No port was found or it could not be opened; `busy` when the system
    /// reported the device busy.
    OpenFailed { busy: bool },
    /// The 7-byte reply to the express-scan request.
    Descriptor { bytes: [u8; 7] },
    /// No reply arrived within the attempt's timeout.
    HandshakeTimedOut,
    /// Fewer bytes than a frame were waiting.
    NoFrame,
    /// A frame was decoded; `completed` is the number of points of the scan
    /// that it completed, if it completed one.
    FrameDecoded { completed: Option<usize> },
    FrameRejected { error: ScanPacketParseError },
    /// Reading or writing the port failed.
    IoFailed,
}

/// The next piece of outside work.
#[derive(Debug, Clone, Copy, PartialEq, Eq, Structural)]
pub enum LidarAction {
    /// Look for the port and open it after `delay_ms`.
    Open { delay_ms: u64 },
    /// Send the stop request, drain the input, send the express-scan request
    /// and wait for its reply.
    Handshake,
    /// Read a frame if a whole one is waiting, after `delay_ms`.
    Poll { delay_ms: u64 },
    /// Send the newest complete scan downstream, then poll after the period.
    Publish,
    /// Drop one byte to realign on the frames, then poll.
    SkipByte,
}

/// The task's next link state, action and published health.
#[derive(Debug, Clone, Copy, PartialEq, Eq, Structural)]
pub struct LidarStep {
    pub link: LidarLink,
    pub action: LidarAction,
    pub status: LidarStatus,
}

/// Decides what the lidar task does after `event` in state `link`, with
/// `status` published so far. The handshake is retried until the reply
/// acknowledges the express scan; a completed scan marks the lidar healthy
/// and is published when it has `MIN_SCAN_POINTS` points; a rejected frame is
/// a protocol error, realigned on by one byte when the sync was lost. An I/O
/// failure, or an event that does not belong to the state, starts over from
/// the port search.
pub fn lidar_step(link: LidarLink, status: LidarStatus, event: LidarEvent) -> (r: LidarStep)
    ensures
        link == LidarLink::Searching && event == LidarEvent::Opened ==> r == (LidarStep {
            link: LidarLink::Handshaking,
            action: LidarAction::Handshake,
            status,
        }),
        link == LidarLink::Searching ==> (event matches LidarEvent::OpenFailed { busy } ==> r == (
        LidarStep {
            link: LidarLink::Searching,
            action: LidarAction::Open { delay_ms: if busy { BUSY_DELAY_MS } else { REOPEN_DELAY_MS } },
            status,
        })),
        link == LidarLink::Handshaking ==> (event matches LidarEvent::Descriptor { bytes } ==> r == (
        if bytes@ == express_scan_descriptor_spec() {
            LidarStep { link: LidarLink::Streaming, action: LidarAction::Poll { delay_ms: 0 }, status }
        } else {
            LidarStep { link: LidarLink::Handshaking, action: LidarAction::Handshake, status }
        })),
        link == LidarLink::Handshaking && event == LidarEvent::HandshakeTimedOut ==> r == (LidarStep {
            link: LidarLink::Handshaking,
            action: LidarAction::Handshake,
            status,
        }),
        link == LidarLink::Streaming && (event == LidarEvent::NoFrame || event
            == LidarEvent::FrameDecoded { completed: None }) ==> r == (LidarStep {
            link: LidarLink::Streaming,
            action: LidarAction::Poll { delay_ms: POLL_PERIOD_MS },
            status,
        }),
        link == LidarLink::Streaming ==> (event matches LidarEvent::FrameDecoded { completed: Some(n) }
            ==> r == (LidarStep {
            link: LidarLink::Streaming,
            action: if n >= MIN_SCAN_POINTS {
                LidarAction::Publish
            } else {
                LidarAction::Poll { delay_ms: POLL_PERIOD_MS }
            },
            status: LidarStatus::Healthy,
        })),
        link == LidarLink::Streaming && event == (LidarEvent::FrameRejected {
            error: ScanPacketParseError::SyncByteMismatch,
        }) ==> r == (LidarStep {
            link: LidarLink::Streaming,
            action: LidarAction::SkipByte,
            status: LidarStatus::ProtocolError,
        }),
        link == LidarLink::Streaming && event == (LidarEvent::FrameRejected {
            error: ScanPacketParseError::ChecksumMismatch,
        }) ==> r == (LidarStep {
            link: LidarLink::Streaming,
            action: LidarAction::Poll { delay_ms: POLL_PERIOD_MS },
            status: LidarStatus::ProtocolError,
        }),
        event == LidarEvent::IoFailed || (link == LidarLink::Searching && !(event == LidarEvent::Opened
            || event is OpenFailed)) || (link == LidarLink::Handshaking && !(event is Descriptor
            || event == LidarEvent::HandshakeTimedOut)) || (link == LidarLink::Streaming && !(event
            == LidarEvent::NoFrame || event is FrameDecoded || event is FrameRejected)) ==> r == (
        LidarStep {
            link: LidarLink::Searching,
            action: LidarAction::Open { delay_ms: 0 },
            status: LidarStatus::UnknownError,
        }),
{
    let lost = LidarStep {
        link: LidarLink::Searching,
        action: LidarAction::Open { delay_ms: 0 },
        status: LidarStatus::UnknownError,
    };
    match link {
        LidarLink::Searching => match event {
            LidarEvent::Opened => LidarStep { link: LidarLink::Handshaking, action: LidarAction::Handshake, status },
            LidarEvent::OpenFailed { busy } => LidarStep {
                link: LidarLink::Searching,
                action: LidarAction::Open {
                    delay_ms: if busy {
                        BUSY_DELAY_MS
                    } else {
                        REOPEN_DELAY_MS
                    },
                },
                status,
            },
            _ => lost,
        },
        LidarLink::Handshaking => match event {
            LidarEvent::Descriptor { bytes } => {
                if is_express_scan_descriptor(&bytes) {
                    LidarStep { link: LidarLink::Streaming, action: LidarAction::Poll { delay_ms: 0 }, status }
                } else {
                    LidarStep { link: LidarLink::Handshaking, action: LidarAction::Handshake, status }
                }
            },
            LidarEvent::HandshakeTimedOut => LidarStep {
                link: LidarLink::Handshaking,
                action: LidarAction::Handshake,
                status,
            },
            _ => lost,
        },
        LidarLink::Streaming => match event {
            LidarEvent::NoFrame => LidarStep {
                link: LidarLink::Streaming,
                action: LidarAction::Poll { delay_ms: POLL_PERIOD_MS },
                status,
            },
            LidarEvent::FrameDecoded { completed } => match completed {
                None => LidarStep {
                    link: LidarLink::Streaming,
                    action: LidarAction::Poll { delay_ms: POLL_PERIOD_MS },
                    status,
                },
                Some(n) => LidarStep {
                    link: LidarLink::Streaming,
                    action: if n >= MIN_SCAN_POINTS {
                        LidarAction::Publish
                    } else {
                        LidarAction::Poll { delay_ms: POLL_PERIOD_MS }
                    },
                    status: LidarStatus::Healthy,
                },
            },
            LidarEvent::FrameRejected { error } => match error {
                ScanPacketParseError::SyncByteMismatch => LidarStep {
                    link: LidarLink::Streaming,
                    action: LidarAction::SkipByte,
                    status: LidarStatus::ProtocolError,
                },
                ScanPacketParseError::ChecksumMismatch => LidarStep {
                    link: LidarLink::Streaming,
                    action: LidarAction::Poll { delay_ms: POLL_PERIOD_MS },
                    status: LidarStatus::ProtocolError,
                },
            },
            _ => lost,
        },
    }
}

} // verus!
