use vstd::prelude::*;

verus! {

/// A value that can be blended between two samples. The blend is taken a
/// fraction `elapsed / span` of the way from `low` to `high`.
pub trait Interpolate: Sized {
    /// The value that `interpolate` returns. Each impl in this crate defines
    /// it; of an impl outside the crate nothing is known.
    open spec fn interpolation(low: Self, high: Self, elapsed: u64, span: u64) -> Self {
        vstd::pervasive::arbitrary()
    }

    fn interpolate(low: &Self, high: &Self, elapsed: u64, span: u64) -> (r: Self)
        requires
            elapsed < span,
        ensures
            r == Self::interpolation(*low, *high, elapsed, span),
    ;
}

/// Linear blend of two integers, rounded toward `low`.
pub open spec fn lerp_i32(low: int, high: int, elapsed: int, span: int) -> int {
    if high >= low {
        low + (high - low) * elapsed / span
    } else {
        low - (low - high) * elapsed / span
    }
}

/// Integer samples (encoder counts, for instance) blend linearly.
impl Interpolate for i32 {
    open spec fn interpolation(low: i32, high: i32, elapsed: u64, span: u64) -> i32 {
        lerp_i32(low as int, high as int, elapsed as int, span as int) as i32
    }

    fn interpolate(low: &i32, high: &i32, elapsed: u64, span: u64) -> (r: i32) {
        proof {
            lemma_lerp_i32_between(*low as int, *high as int, elapsed as int, span as int);
        }
        let lo = *low as i128;
        let hi = *high as i128;
        assert(0 <= (if hi >= lo { hi - lo } else { lo - hi }) * elapsed < 0x1_0000_0000 * 0x1_0000_0000_0000_0000)
            by (nonlinear_arith)
            requires
                -0x8000_0000 <= lo < 0x8000_0000,
                -0x8000_0000 <= hi < 0x8000_0000,
                0 <= elapsed < 0x1_0000_0000_0000_0000,
        ;
        let v = if hi >= lo {
            lo + (hi - lo) * (elapsed as i128) / (span as i128)
        } else {
            lo - (lo - hi) * (elapsed as i128) / (span as i128)
        };
        v as i32
    }
}

/// A linear blend of two integers lies between them.
pub proof fn lemma_lerp_i32_between(low: int, high: int, elapsed: int, span: int)
    requires
        0 <= elapsed < span,
    ensures
        low <= high ==> low <= lerp_i32(low, high, elapsed, span) <= high,
        high <= low ==> high <= lerp_i32(low, high, elapsed, span) <= low,
{
    let d = if high >= low { high - low } else { low - high };
    assert(0 <= d * elapsed / span <= d) by {
        assert(0 <= d * elapsed <= span * d) by (nonlinear_arith)
            requires
                0 <= d,
                0 <= elapsed < span,
        ;
        vstd::arithmetic::div_mod::lemma_div_is_ordered(d * elapsed, span * d, span);
        vstd::arithmetic::div_mod::lemma_div_multiples_vanish(d, span);
        vstd::arithmetic::div_mod::lemma_div_pos_is_pos(d * elapsed, span);
    }
}

/// Sample times strictly increase along the sequence.
pub open spec fn times_increasing<T>(s: Seq<(u64, T)>) -> bool {
    forall|a: int, b: int| 0 <= a < b < s.len() ==> (#[trigger] s[a]).0 < (#[trigger] s[b]).0
}

/// A sample taken at `t` is older than the retention window ending at `now`.
pub open spec fn stale(t: u64, now: u64, history: u64) -> bool {
    now > t && now - t > history
}

/// The samples left once the stale ones at the front have been dropped.
pub open spec fn drop_stale<T>(s: Seq<(u64, T)>, now: u64, history: u64) -> Seq<(u64, T)>
    decreases s.len(),
{
    if s.len() > 0 && stale(s[0].0, now, history) {
        drop_stale(s.drop_first(), now, history)
    } else {
        s
    }
}

/// The samples after `(time, value)` is recorded: it replaces a sample taken
/// at the same time, and is appended otherwise.
pub open spec fn with_sample<T>(s: Seq<(u64, T)>, time: u64, value: T) -> Seq<(u64, T)> {
    if s.len() > 0 && s.last().0 == time {
        s.update(s.len() - 1, (time, value))
    } else {
        s.push((time, value))
    }
}

/// Samples `i` and `i + 1` bracket `time`.
pub open spec fn brackets<T>(s: Seq<(u64, T)>, i: int, time: u64) -> bool {
    0 <= i < s.len() - 1 && s[i].0 <= time < s[i + 1].0
}

/// The value at `time` from the bracketing samples `i` and `i + 1`: the
/// sample itself when taken exactly at `time`, otherwise the blend.
pub open spec fn bracket_value<T: Interpolate>(s: Seq<(u64, T)>, i: int, time: u64) -> T {
    if s[i].0 == time {
        s[i].1
    } else {
        T::interpolation(s[i].1, s[i + 1].1, (time - s[i].0) as u64, (s[i + 1].0 - s[i].0) as u64)
    }
}

/// The value that a buffer holding `s` reports for `time`: `None` when it
/// is empty, the first sample up to its time, the last one from its time on,
/// and between them the value from the bracketing pair.
pub open spec fn buffer_value<T: Interpolate>(s: Seq<(u64, T)>, time: u64) -> Option<T> {
    if s.len() == 0 {
        None
    } else if time <= s[0].0 {
        Some(s[0].1)
    } else if time >= s.last().0 {
        Some(s.last().1)
    } else {
        Some(bracket_value(s, choose|i: int| brackets(s, i, time), time))
    }
}

/// In increasing samples at most one pair brackets a time.
pub proof fn lemma_bracket_unique<T>(s: Seq<(u64, T)>, time: u64, i: int, k: int)
    requires
        times_increasing(s),
        brackets(s, i, time),
        brackets(s, k, time),
    ensures
        i == k,
{
    if i < k {
        assert(s[i + 1].0 <= s[k].0);
    } else if k < i {
        assert(s[k + 1].0 <= s[i].0);
    }
}

/// Dropping stale samples keeps a suffix, whose first sample is fresh.
pub proof fn lemma_drop_stale_suffix<T>(s: Seq<(u64, T)>, now: u64, history: u64)
    ensures
        drop_stale(s, now, history).len() <= s.len(),
        drop_stale(s, now, history) == s.subrange(
            s.len() - drop_stale(s, now, history).len(),
            s.len() as int,
        ),
        drop_stale(s, now, history).len() > 0 ==> !stale(
            drop_stale(s, now, history)[0].0,
            now,
            history,
        ),
    decreases s.len(),
{
    if s.len() > 0 && stale(s[0].0, now, history) {
        lemma_drop_stale_suffix(s.drop_first(), now, history);
        let r = drop_stale(s.drop_first(), now, history);
        assert(s.drop_first().subrange(s.len() - 1 - r.len(), s.len() - 1) =~= s.subrange(
            s.len() - r.len(),
            s.len() as int,
        ));
    } else {
        assert(s.subrange(0, s.len() as int) =~= s);
    }
}

/// Samples held for retention `history`, ordered by time. A sample older
/// than `history` before the newest one is dropped when a newer one arrives.
pub struct TimeInterpolatableBuffer<T> {
    history_size: u64,
    buffer: Vec<(u64, T)>,
}

impl<T: Interpolate + Copy> TimeInterpolatableBuffer<T> {
    /// The samples held, oldest first: (time in nanoseconds, value).
    pub closed spec fn samples(&self) -> Seq<(u64, T)> {
        self.buffer@
    }

    /// The retention window in nanoseconds.
    pub closed spec fn history(&self) -> u64 {
        self.history_size
    }

    pub closed spec fn wf(&self) -> bool {
        times_increasing(self.buffer@)
    }

    /// An empty buffer that keeps `history_size` nanoseconds of samples.
    pub fn new(history_size: u64) -> (r: Self)
        ensures
            r.wf(),
            r.samples() == Seq::<(u64, T)>::empty(),
            r.history() == history_size,
    {
        TimeInterpolatableBuffer { history_size, buffer: Vec::new() }
    }

    /// Number of samples held.
    pub fn len(&self) -> (r: usize)
        ensures
            r == self.samples().len(),
    {
        self.buffer.len()
    }

    /// Time of the newest sample, `None` when empty.
    pub fn latest_time(&self) -> (r: Option<u64>)
        ensures
            r is None <==> self.samples().len() == 0,
            r matches Some(t) ==> t == self.samples().last().0,
    {
        let n = self.buffer.len();
        if n == 0 {
            None
        } else {
            Some(self.buffer[n - 1].0)
        }
    }

    /// Records `value` at `time` (nanoseconds), which may not precede the
    /// newest sample. Samples that are stale at `time` are dropped first.
    pub fn add_sample(&mut self, time: u64, value: T)
        requires
            old(self).wf(),
            old(self).samples().len() > 0 ==> old(self).samples().last().0 <= time,
        ensures
            final(self).wf(),
            final(self).history() == old(self).history(),
            final(self).samples() == with_sample(
                drop_stale(old(self).samples(), time, old(self).history()),
                time,
                value,
            ),
            forall|k: int|
                0 <= k < final(self).samples().len() ==> !stale(
                    #[trigger] final(self).samples()[k].0,
                    time,
                    final(self).history(),
                ),
    {
        self.clean_up(time);
        let ghost kept = self.buffer@;
        proof {
            lemma_drop_stale_suffix(old(self).buffer@, time, self.history_size);
        }
        let n = self.buffer.len();
        if n > 0 && self.buffer[n - 1].0 == time {
            self.buffer.set(n - 1, (time, value));
        } else {
            self.buffer.push((time, value));
        }
        assert forall|k: int| 0 <= k < self.buffer@.len() implies !stale(
            #[trigger] self.buffer@[k].0,
            time,
            self.history_size,
        ) by {
            if k < kept.len() && k > 0 {
                assert(kept[0].0 < kept[k].0);
            }
        }
    }

    /// The value at `time`: see `buffer_value`. `None` when the buffer is
    /// empty.
    pub fn get_value(&self, time: u64) -> (r: Option<T>)
        requires
            self.wf(),
        ensures
            r == buffer_value(self.samples(), time),
    {
        let n = self.buffer.len();
        if n == 0 {
            return None;
        }
        if time <= self.buffer[0].0 {
            return Some(self.buffer[0].1);
        }
        let mut i: usize = 1;
        while i < n
            invariant
                1 <= i <= n,
                n == self.buffer@.len(),
                times_increasing(self.buffer@),
                self.buffer@[i - 1].0 <= time,
                self.buffer@[0].0 < time,
            decreases n - i,
        {
            if self.buffer[i].0 > time {
                let lo = self.buffer[i - 1];
                let hi = self.buffer[i];
                proof {
                    let s = self.buffer@;
                    assert(brackets(s, i - 1, time));
                    let c = choose|c: int| brackets(s, c, time);
                    lemma_bracket_unique(s, time, i - 1, c);
                    assert(time < s.last().0) by {
                        if i < n - 1 {
                            assert(s[i as int].0 < s[n - 1].0);
                        }
                    }
                }
                if lo.0 == time {
                    return Some(lo.1);
                }
                return Some(T::interpolate(&lo.1, &hi.1, time - lo.0, hi.0 - lo.0));
            }
            i = i + 1;
        }
        Some(self.buffer[n - 1].1)
    }

    /// Drops every sample.
    pub fn clear(&mut self)
        ensures
            final(self).wf(),
            final(self).history() == old(self).history(),
            final(self).samples() == Seq::<(u64, T)>::empty(),
    {
        self.buffer.clear();
    }

    /// Drops the samples at the front that are stale at `current_time`.
    pub fn clean_up(&mut self, current_time: u64)
        requires
            old(self).wf(),
        ensures
            final(self).wf(),
            final(self).history() == old(self).history(),
            final(self).samples() == drop_stale(old(self).samples(), current_time, old(self).history()),
    {
        while self.buffer.len() > 0 && current_time > self.buffer[0].0 && current_time
            - self.buffer[0].0 > self.history_size
            invariant
                times_increasing(self.buffer@),
                self.history_size == old(self).history_size,
                drop_stale(self.buffer@, current_time, self.history_size) == drop_stale(
                    old(self).buffer@,
                    current_time,
                    self.history_size,
                ),
            decreases self.buffer@.len(),
        {
            let ghost before = self.buffer@;
            self.buffer.remove(0);
            assert(self.buffer@ =~= before.drop_first());
        }
    }
}

/// Between its first and last sample, an integer buffer reports a value on
/// the segment between the two samples that bracket the time.
pub proof fn lemma_i32_value_between_brackets(s: Seq<(u64, i32)>, time: u64, i: int)
    requires
        times_increasing(s),
        0 <= i < s.len() - 1,
        s[i].0 <= time <= s[i + 1].0,
    ensures
        buffer_value(s, time) matches Some(v) && (
            (s[i].1 <= v <= s[i + 1].1) || (s[i + 1].1 <= v <= s[i].1)),
{
    if time == s[i + 1].0 {
        if i + 1 < s.len() - 1 {
            assert(brackets(s, i + 1, time));
            let c = choose|c: int| brackets(s, c, time);
            lemma_bracket_unique(s, time, i + 1, c);
        } else if i > 0 {
            assert(s[0].0 < s[i].0);
        }
    } else {
        assert(brackets(s, i, time));
        if time > s[0].0 && time < s.last().0 {
            let c = choose|c: int| brackets(s, c, time);
            lemma_bracket_unique(s, time, i, c);
            lemma_lerp_i32_between(
                s[i].1 as int,
                s[i + 1].1 as int,
                (time - s[i].0) as int,
                (s[i + 1].0 - s[i].0) as int,
            );
        } else if time <= s[0].0 {
            if i > 0 {
                assert(s[0].0 < s[i].0);
            }
        } else {
            if i + 1 < s.len() - 1 {
                assert(s[i + 1].0 < s.last().0);
            }
        }
    }
}

/// Some entry of `s` is keyed by `t`.
pub open spec fn has_time<T>(s: Seq<(u64, T)>, t: u64) -> bool {
    exists|i: int| 0 <= i < s.len() && (#[trigger] s[i]).0 == t
}

/// The entries of `s` as a map from time to value.
pub open spec fn entries_map<T>(s: Seq<(u64, T)>) -> Map<u64, T> {
    Map::new(
        |t: u64| has_time(s, t),
        |t: u64| s[choose|i: int| 0 <= i < s.len() && (#[trigger] s[i]).0 == t].1,
    )
}

/// In increasing entries, the entry at `i` is what the map holds for its time.
pub proof fn lemma_entries_map_index<T>(s: Seq<(u64, T)>, i: int)
    requires
        times_increasing(s),
        0 <= i < s.len(),
    ensures
        entries_map(s).contains_key(s[i].0),
        entries_map(s)[s[i].0] == s[i].1,
{
    assert(has_time(s, s[i].0));
    let c = choose|c: int| 0 <= c < s.len() && (#[trigger] s[c]).0 == s[i].0;
    if c < i {
        assert(s[c].0 < s[i].0);
    } else if i < c {
        assert(s[i].0 < s[c].0);
    }
}

/// Values keyed by time, kept in time order. Looks up the newest entry at
/// or before a time.
pub struct TimeIndexedMap<T> {
    entries: Vec<(u64, T)>,
}

impl<T: Copy> TimeIndexedMap<T> {
    pub closed spec fn view(&self) -> Map<u64, T> {
        entries_map(self.entries@)
    }

    pub closed spec fn wf(&self) -> bool {
        times_increasing(self.entries@)
    }

    /// An empty map.
    pub fn new() -> (r: Self)
        ensures
            r.wf(),
            r@ == Map::<u64, T>::empty(),
    {
        let r = TimeIndexedMap { entries: Vec::new() };
        assert(r@ =~= Map::<u64, T>::empty());
        r
    }

    /// Number of entries.
    pub fn len(&self) -> (r: usize)
        requires
            self.wf(),
        ensures
            r == self@.len(),
    {
        proof {
            self.lemma_len();
        }
        self.entries.len()
    }

    proof fn lemma_len(&self)
        requires
            self.wf(),
        ensures
            self@.dom().finite(),
            self@.len() == self.entries@.len(),
    {
        let ghost s = self.entries@;
        let f = |i: int| s[i].0;
        assert(self@.dom() =~= Set::new(|i: int| 0 <= i < s.len()).map(f)) by {
            assert forall|t: u64| self@.dom().contains(t) implies Set::new(
                |i: int| 0 <= i < s.len(),
            ).map(f).contains(t) by {
                let i = choose|i: int| 0 <= i < s.len() && (#[trigger] s[i]).0 == t;
                assert(Set::new(|i: int| 0 <= i < s.len()).contains(i));
            }
        }
        vstd::set_lib::lemma_int_range(0, s.len() as int);
        assert(Set::new(|i: int| 0 <= i < s.len()) =~= vstd::set_lib::set_int_range(0, s.len() as int));
        assert forall|a: int, b: int|
            Set::new(|i: int| 0 <= i < s.len()).contains(a) && Set::new(
                |i: int| 0 <= i < s.len(),
            ).contains(b) && #[trigger] f(a) == #[trigger] f(b) implies a == b by {
            if a < b {
                assert(s[a].0 < s[b].0);
            } else if b < a {
                assert(s[b].0 < s[a].0);
            }
        }
        vstd::set_lib::lemma_map_size(Set::new(|i: int| 0 <= i < s.len()), Set::new(|i: int| 0 <= i < s.len()).map(f), f);
    }

    /// Sets the value at `time`, replacing any value already there.
    pub fn insert(&mut self, time: u64, value: T)
        requires
            old(self).wf(),
        ensures
            final(self).wf(),
            final(self)@ == old(self)@.insert(time, value),
    {
        let ghost before = self.entries@;
        let n = self.entries.len();
        let mut k: usize = 0;
        while k < n && self.entries[k].0 < time
            invariant
                k <= n,
                n == self.entries@.len(),
                self.entries@ == before,
                forall|i: int| 0 <= i < k ==> (#[trigger] before[i]).0 < time,
            decreases n - k,
        {
            k = k + 1;
        }
        if k < n && self.entries[k].0 == time {
            self.entries.set(k, (time, value));
            let ghost after = self.entries@;
            proof {
                assert(times_increasing(after)) by {
                    assert forall|a: int, b: int| 0 <= a < b < after.len() implies (#[trigger] after[a]).0
                        < (#[trigger] after[b]).0 by {
                        assert(before[a].0 < before[b].0);
                    }
                }
                self.lemma_after_insert(before, time, value, k as int);
            }
        } else {
            self.entries.insert(k, (time, value));
            let ghost after = self.entries@;
            proof {
                assert(times_increasing(after)) by {
                    assert forall|a: int, b: int| 0 <= a < b < after.len() implies (#[trigger] after[a]).0
                        < (#[trigger] after[b]).0 by {
                        if a < k && b > k {
                            assert(before[a].0 < before[b - 1].0 || a == b - 1);
                        } else if a > k {
                            assert(before[a - 1].0 < before[b - 1].0);
                        } else if a < k && b < k {
                            assert(before[a].0 < before[b].0);
                        }
                    }
                }
                self.lemma_after_insert(before, time, value, k as int);
            }
        }
    }

    /// The entries after an insertion at index `k` hold the old map with
    /// `time` set to `value`.
    proof fn lemma_after_insert(&self, before: Seq<(u64, T)>, time: u64, value: T, k: int)
        requires
            times_increasing(before),
            times_increasing(self.entries@),
            0 <= k <= before.len(),
            self.entries@[k] == (time, value),
            forall|i: int| 0 <= i < k ==> (#[trigger] before[i]).0 < time,
            k < before.len() && before[k].0 == time ==> self.entries@ == before.update(k, (time, value)),
            !(k < before.len() && before[k].0 == time) ==> self.entries@ == before.insert(k, (time, value)),
        ensures
            self@ == entries_map(before).insert(time, value),
    {
        let after = self.entries@;
        let m = entries_map(before).insert(time, value);
        assert forall|t: u64| #[trigger] m.contains_key(t) == has_time(after, t) by {
            if has_time(before, t) && t != time {
                let i = choose|i: int| 0 <= i < before.len() && (#[trigger] before[i]).0 == t;
                if k < before.len() && before[k].0 == time {
                    assert(after[i] == before[i]);
                } else if i < k {
                    assert(after[i] == before[i]);
                } else {
                    assert(after[i + 1] == before[i]);
                }
            }
            if has_time(after, t) && t != time {
                let j = choose|j: int| 0 <= j < after.len() && (#[trigger] after[j]).0 == t;
                if k < before.len() && before[k].0 == time {
                    assert(before[j] == after[j]);
                } else if j < k {
                    assert(before[j] == after[j]);
                } else {
                    assert(before[j - 1] == after[j]);
                }
            }
            assert(after[k].0 == time);
        }
        assert forall|t: u64| m.contains_key(t) implies entries_map(after)[t] == m[t] by {
            if t == time {
                lemma_entries_map_index(after, k);
            } else {
                let i = choose|i: int| 0 <= i < before.len() && (#[trigger] before[i]).0 == t;
                lemma_entries_map_index(before, i);
                if (k < before.len() && before[k].0 == time) || i < k {
                    assert(after[i] == before[i]);
                    lemma_entries_map_index(after, i);
                } else {
                    assert(after[i + 1] == before[i]);
                    lemma_entries_map_index(after, i + 1);
                }
            }
        }
        assert(self@ =~= m);
    }

    /// The newest entry at or before `time`: its time and value. `None` when
    /// every entry is later than `time`.
    pub fn latest_at_or_before(&self, time: u64) -> (r: Option<(u64, T)>)
        requires
            self.wf(),
        ensures
            r is None <==> (forall|t: u64| #[trigger] self@.contains_key(t) ==> t > time),
            r matches Some((t, v)) ==> {
                &&& self@.contains_key(t)
                &&& self@[t] == v
                &&& t <= time
                &&& forall|u: u64| #[trigger] self@.contains_key(u) && u <= time ==> u <= t
            },
    {
        let n = self.entries.len();
        let mut k: usize = 0;
        while k < n && self.entries[k].0 <= time
            invariant
                k <= n,
                n == self.entries@.len(),
                forall|i: int| 0 <= i < k ==> (#[trigger] self.entries@[i]).0 <= time,
            decreases n - k,
        {
            k = k + 1;
        }
        let ghost s = self.entries@;
        if k == 0 {
            assert forall|t: u64| #[trigger] self@.contains_key(t) implies t > time by {
                let i = choose|i: int| 0 <= i < s.len() && (#[trigger] s[i]).0 == t;
                if i > 0 {
                    assert(s[0].0 < s[i].0);
                }
            }
            None
        } else {
            let e = self.entries[k - 1];
            proof {
                lemma_entries_map_index(s, k - 1);
                assert(self@.contains_key(e.0) && e.0 <= time);
                assert forall|u: u64| #[trigger] self@.contains_key(u) && u <= time implies u <= e.0 by {
                    let i = choose|i: int| 0 <= i < s.len() && (#[trigger] s[i]).0 == u;
                    if i > k - 1 {
                        if i > k {
                            assert(s[k as int].0 < s[i].0);
                        }
                    } else if i < k - 1 {
                        assert(s[i].0 < s[k - 1].0);
                    }
                }
            }
            Some(e)
        }
    }

    /// The newest time held, `None` when empty.
    pub fn last_time(&self) -> (r: Option<u64>)
        requires
            self.wf(),
        ensures
            r is None <==> self@.dom() == Set::<u64>::empty(),
            r matches Some(t) ==> self@.contains_key(t) && forall|u: u64| #[trigger] self@.contains_key(u) ==> u <= t,
    {
        let n = self.entries.len();
        let ghost s = self.entries@;
        if n == 0 {
            assert(self@.dom() =~= Set::<u64>::empty());
            None
        } else {
            let t = self.entries[n - 1].0;
            proof {
                lemma_entries_map_index(s, n - 1);
                assert forall|u: u64| #[trigger] self@.contains_key(u) implies u <= t by {
                    let i = choose|i: int| 0 <= i < s.len() && (#[trigger] s[i]).0 == u;
                    if i < n - 1 {
                        assert(s[i].0 < s[n - 1].0);
                    }
                }
            }
            Some(t)
        }
    }

    /// Drops the entries older than `cutoff`.
    pub fn prune_before(&mut self, cutoff: u64)
        requires
            old(self).wf(),
        ensures
            final(self).wf(),
            final(self)@ == old(self)@.restrict(Set::new(|t: u64| t >= cutoff)),
    {
        let ghost before = self.entries@;
        let n = self.entries.len();
        let mut k: usize = 0;
        while k < n && self.entries[k].0 < cutoff
            invariant
                k <= n,
                n == self.entries@.len(),
                self.entries@ == before,
                forall|i: int| 0 <= i < k ==> (#[trigger] before[i]).0 < cutoff,
            decreases n - k,
        {
            k = k + 1;
        }
        let mut kept: Vec<(u64, T)> = Vec::new();
        let mut i: usize = k;
        while i < n
            invariant
                k <= i <= n,
                n == before.len(),
                self.entries@ == before,
                kept@ == before.subrange(k as int, i as int),
            decreases n - i,
        {
            kept.push(self.entries[i]);
            i = i + 1;
            assert(kept@ =~= before.subrange(k as int, i as int));
        }
        self.entries = kept;
        proof {
            let after = self.entries@;
            assert(times_increasing(after)) by {
                assert forall|a: int, b: int| 0 <= a < b < after.len() implies (#[trigger] after[a]).0
                    < (#[trigger] after[b]).0 by {
                    assert(before[a + k].0 < before[b + k].0);
                }
            }
            let m = entries_map(before).restrict(Set::new(|t: u64| t >= cutoff));
            assert forall|t: u64| #[trigger] m.contains_key(t) == has_time(after, t) by {
                if has_time(before, t) && t >= cutoff {
                    let j = choose|j: int| 0 <= j < before.len() && (#[trigger] before[j]).0 == t;
                    if j >= k {
                        assert(after[j - k] == before[j]);
                    } else {
                        assert(before[j].0 < cutoff);
                    }
                }
                if has_time(after, t) {
                    let j = choose|j: int| 0 <= j < after.len() && (#[trigger] after[j]).0 == t;
                    assert(before[j + k] == after[j]);
                    if k < n {
                        assert(before[k as int].0 >= cutoff);
                        if j > 0 {
                            assert(before[k as int].0 < before[j + k].0);
                        }
                    }
                }
            }
            assert forall|t: u64| m.contains_key(t) implies entries_map(after)[t] == m[t] by {
                let j = choose|j: int| 0 <= j < after.len() && (#[trigger] after[j]).0 == t;
                assert(before[j + k] == after[j]);
                lemma_entries_map_index(after, j);
                lemma_entries_map_index(before, j + k);
            }
            assert(self@ =~= m);
        }
    }
}

} // verus!
