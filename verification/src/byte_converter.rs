use vstd::prelude::*;

use crate::endian::{decode_i32, decode_word};
use crate::fixed_array::FixedArray;
use crate::logs::{Logger, LOG};

verus! {

/// Mathematical state of a `ByteConverter`: the configured window size (a
/// count of integers), the one-generation lookback window, the window decoded
/// by the call in progress, the pending partial group, the byte order
/// detected last, and the running sum.
#[verifier::ext_equal]
pub struct ConverterModel {
    pub window_size: nat,
    pub last: Seq<i32>,
    pub current: Seq<i32>,
    pub remainder: Seq<u8>,
    pub little_endian: bool,
    pub sum: i32,
}

/// Capacity of the two integer windows.
pub const WINDOW_CAP: usize = 255;

/// Capacity of the pending-remainder store (one whole 4-byte group).
pub const REMAINDER_CAP: usize = 4;

/// Addition on `i32` that wraps around on overflow, as `i32::wrapping_add`
/// computes it.
pub open spec fn wrap_add(a: i32, b: i32) -> i32 {
    vstd::wrapping::i32_specs::wrapping_add(a, b)
}

/// Wrapping sum of `vals`, taken left to right starting from `acc`.
pub open spec fn wrap_sum_from(acc: i32, vals: Seq<i32>) -> i32
    decreases vals.len(),
{
    if vals.len() == 0 {
        acc
    } else {
        wrap_sum_from(wrap_add(acc, vals[0]), vals.drop_first())
    }
}

/// `cur` extended by `vals` one element at a time, dropping every element
/// that would grow the sequence past `cap`.
pub open spec fn append_capped(cur: Seq<i32>, vals: Seq<i32>, cap: int) -> Seq<i32> {
    if cur.len() >= cap {
        cur
    } else if cur.len() + vals.len() <= cap {
        cur + vals
    } else {
        cur + vals.take(cap - cur.len())
    }
}

/// The integer decoded from the 4-byte group of `buf` that starts at `off`.
pub open spec fn group_at(buf: Seq<u8>, off: int, little: bool) -> i32 {
    decode_i32(buf.subrange(off, off + 4), little)
}

/// The integers decoded from the complete 4-byte groups of
/// `buf[start..limit]`, in order.
pub open spec fn groups(buf: Seq<u8>, start: int, limit: int, little: bool) -> Seq<i32> {
    Seq::new(
        if start <= limit {
            ((limit - start) / 4) as nat
        } else {
            0
        },
        |i: int| group_at(buf, start + 4 * i, little),
    )
}

/// One run of group decoding over `buf`, starting at `start`: decodes
/// complete groups up to `min(buf.len(), 4 * window_size)` bytes, appends
/// them to the current window (dropping what no longer fits), adds every
/// decoded value to the running sum, and queues trailing bytes that do not
/// form a complete group, provided the input does not reach past the byte
/// window and the pending store has room for them.
pub open spec fn read_step(m: ConverterModel, buf: Seq<u8>, start: int, little: bool) -> ConverterModel {
    let limit = if buf.len() <= 4 * m.window_size {
        buf.len() as int
    } else {
        4 * m.window_size as int
    };
    let vals = groups(buf, start, limit, little);
    let rem = buf.subrange(start + 4 * vals.len(), limit);
    ConverterModel {
        window_size: m.window_size,
        last: m.last,
        current: append_capped(m.current, vals, WINDOW_CAP as int),
        remainder: if rem.len() > 0 && buf.len() <= 4 * m.window_size
            && m.remainder.len() + rem.len() <= REMAINDER_CAP {
            m.remainder + rem
        } else {
            m.remainder
        },
        little_endian: little,
        sum: wrap_sum_from(m.sum, vals),
    }
}

/// The decoding part of one call: with no group pending, inputs shorter than
/// eight bytes are skipped and anything else is decoded from offset zero in
/// the byte order detected from the first group; with a group pending, the
/// group is completed from the leading bytes of `buf` (when they suffice),
/// decoded in the byte order detected from its own first and last byte, and
/// decoding continues right after the borrowed bytes. The pending store is
/// cleared unconditionally on that branch.
pub open spec fn decode_phase(m: ConverterModel, buf: Seq<u8>) -> ConverterModel {
    if m.remainder.len() == 0 {
        if buf.len() < 8 {
            m
        } else {
            read_step(m, buf, 0, buf[0] > buf[3])
        }
    } else {
        let take_len = 4 - m.remainder.len();
        if 1 <= m.remainder.len() <= 3 && buf.len() >= take_len {
            let grp = m.remainder + buf.take(take_len as int);
            let little = grp[0] > grp[3];
            let v = decode_i32(grp, little);
            let m1 = ConverterModel {
                window_size: m.window_size,
                last: m.last,
                current: append_capped(m.current, seq![v], WINDOW_CAP as int),
                remainder: m.remainder,
                little_endian: m.little_endian,
                sum: wrap_add(m.sum, v),
            };
            let m2 = read_step(m1, buf, take_len as int, little);
            ConverterModel { remainder: Seq::empty(), ..m2 }
        } else {
            ConverterModel { remainder: Seq::empty(), ..m }
        }
    }
}

/// The gap-fill part of one call: when the call decoded fewer than
/// `window_size` values and a previous window exists, values from the front
/// of the previous window fill the shortfall and join the running sum; if
/// the previous window holds fewer than the shortfall, all of it is taken.
pub open spec fn gap_fill_phase(m: ConverterModel) -> ConverterModel {
    if m.last.len() > 0 && m.current.len() < m.window_size {
        let gap = m.window_size - m.current.len();
        if m.last.len() >= gap {
            ConverterModel {
                current: if m.current.len() + gap <= WINDOW_CAP {
                    m.current + m.last.take(gap)
                } else {
                    m.current
                },
                sum: wrap_sum_from(m.sum, m.last.take(gap)),
                ..m
            }
        } else {
            ConverterModel {
                current: if m.current.len() + m.last.len() <= WINDOW_CAP {
                    m.current + m.last
                } else {
                    m.current
                },
                sum: wrap_sum_from(m.sum, m.last),
                ..m
            }
        }
    } else {
        m
    }
}

/// The snapshot part of one call: an empty previous window is filled, once,
/// with the whole (possibly gap-filled) current window, to serve as the
/// lookback source for the next call. An empty current window leaves it
/// empty.
pub open spec fn snapshot_phase(m: ConverterModel) -> ConverterModel {
    if m.last.len() == 0 && m.current.len() > 0 {
        ConverterModel { last: m.current, ..m }
    } else {
        m
    }
}

/// What one `convert_bytes_to_i32` call does to the state.
pub open spec fn convert_spec(m: ConverterModel, buf: Seq<u8>) -> ConverterModel {
    snapshot_phase(gap_fill_phase(decode_phase(m, buf)))
}

/// What one `ingest` call does to the state: the current window and the
/// running sum are reset first, and an empty input only reports an error.
pub open spec fn ingest_spec(m: ConverterModel, buf: Seq<u8>) -> ConverterModel {
    let m0 = ConverterModel { current: Seq::empty(), sum: 0, ..m };
    if buf.len() == 0 {
        m0
    } else {
        convert_spec(m0, buf)
    }
}

/// The state a freshly constructed decoder is in: empty windows, no pending
/// bytes, big-endian until detection says otherwise, and the requested
/// window size — or the default of 3 in place of a zero request.
pub open spec fn init_model(window_size: nat) -> ConverterModel {
    ConverterModel {
        window_size: if window_size > 0 {
            window_size
        } else {
            3
        },
        last: Seq::empty(),
        current: Seq::empty(),
        remainder: Seq::empty(),
        little_endian: false,
        sum: 0,
    }
}

/// Appending one more value to a wrapping sum wraps it into the total.
pub proof fn lemma_wrap_sum_snoc(acc: i32, s: Seq<i32>, v: i32)
    ensures
        wrap_sum_from(acc, s.push(v)) == wrap_add(wrap_sum_from(acc, s), v),
    decreases s.len(),
{
    if s.len() == 0 {
        assert(s.push(v).drop_first() =~= Seq::<i32>::empty());
        assert(s.push(v)[0] == v);
        assert(wrap_sum_from(acc, s.push(v)) == wrap_sum_from(
            wrap_add(acc, v),
            Seq::<i32>::empty(),
        ));
        assert(wrap_sum_from(wrap_add(acc, v), Seq::<i32>::empty()) == wrap_add(acc, v));
    } else {
        assert(s.push(v).drop_first() =~= s.drop_first().push(v));
        assert(s.push(v)[0] == s[0]);
        lemma_wrap_sum_snoc(wrap_add(acc, s[0]), s.drop_first(), v);
        assert(wrap_sum_from(acc, s.push(v)) == wrap_sum_from(
            wrap_add(acc, s[0]),
            s.drop_first().push(v),
        ));
    }
}

/// Splitting a wrapping sum at any point gives the same total.
pub proof fn lemma_wrap_sum_append(acc: i32, s1: Seq<i32>, s2: Seq<i32>)
    ensures
        wrap_sum_from(acc, s1 + s2) == wrap_sum_from(wrap_sum_from(acc, s1), s2),
    decreases s1.len(),
{
    if s1.len() == 0 {
        assert(s1 + s2 =~= s2);
    } else {
        assert((s1 + s2).drop_first() =~= s1.drop_first() + s2);
        assert((s1 + s2)[0] == s1[0]);
        lemma_wrap_sum_append(wrap_add(acc, s1[0]), s1.drop_first(), s2);
    }
}

/// Extending a capped sequence by one more value is one capped push.
pub proof fn lemma_append_capped_snoc(cur: Seq<i32>, s: Seq<i32>, v: i32, cap: int)
    requires
        cur.len() <= cap,
    ensures
        append_capped(cur, s.push(v), cap) == ({
            let a = append_capped(cur, s, cap);
            if a.len() < cap {
                a.push(v)
            } else {
                a
            }
        }),
{
    let a = append_capped(cur, s, cap);
    if cur.len() >= cap {
    } else if cur.len() + s.len() + 1 <= cap {
        assert(cur + s.push(v) =~= (cur + s).push(v));
    } else if cur.len() + s.len() <= cap {
        assert(s.push(v).take(cap - cur.len()) =~= s);
        assert(a.len() == cap);
    } else {
        assert(s.push(v).take(cap - cur.len()) =~= s.take(cap - cur.len()));
        assert(a.len() == cap);
    }
}

/// A capped extension never disturbs the elements already present.
pub proof fn lemma_append_capped_prefix(cur: Seq<i32>, s: Seq<i32>, cap: int)
    ensures
        append_capped(cur, s, cap).len() >= cur.len(),
        forall|i: int| 0 <= i < cur.len() ==> append_capped(cur, s, cap)[i] == cur[i],
{
}

/// Streaming byte-to-integer decoder: reconstructs signed 32-bit integers
/// from chunks of bytes, carries incomplete trailing groups to the next
/// call, fills short windows from the previous call, and keeps a running
/// sum over the current window.
pub struct ByteConverter {
    /// Length of the decoding window, as a count of integers.
    window_size: usize,
    /// One-generation lookback: used only to fill a window-size gap.
    buf_last: FixedArray<i32, 255>,
    /// The values decoded by the call in progress.
    buf_current: FixedArray<i32, 255>,
    /// Bytes left over from a call because they completed no 4-byte group.
    buf_remainder: FixedArray<u8, 4>,
    /// Byte order detected last; big-endian until detection says otherwise.
    little_endian: bool,
    /// Sum of the values in the current window.
    sum: i32,
}

impl View for ByteConverter {
    type V = ConverterModel;

    closed spec fn view(&self) -> ConverterModel {
        ConverterModel {
            window_size: self.window_size as nat,
            last: self.buf_last@,
            current: self.buf_current@,
            remainder: self.buf_remainder@,
            little_endian: self.little_endian,
            sum: self.sum,
        }
    }
}

impl ByteConverter {
    /// Everything construction establishes and every method preserves: the
    /// stores respect their capacities and the window size is positive and
    /// small enough that its byte equivalent fits a `usize`.
    pub open spec fn wf(&self) -> bool {
        &&& self@.last.len() <= WINDOW_CAP
        &&& self@.current.len() <= WINDOW_CAP
        &&& self@.remainder.len() <= REMAINDER_CAP
        &&& 1 <= self@.window_size
        &&& 4 * self@.window_size <= usize::MAX
    }

    pub fn init(window_size: usize) -> (r: ByteConverter)
        requires
            4 * window_size <= usize::MAX,
        ensures
            r.wf(),
            r@ == init_model(window_size as nat),
    {
        if window_size > 0 {
            ByteConverter {
                window_size,
                buf_last: FixedArray::<i32, 255>::new(),
                buf_current: FixedArray::<i32, 255>::new(),
                buf_remainder: FixedArray::<u8, 4>::new(),
                little_endian: false,
                sum: 0,
            }
        } else {
            LOG.warn("please use a real window_size for input, using default value = 3");
            ByteConverter {
                window_size: 3,
                buf_last: FixedArray::<i32, 255>::new(),
                buf_current: FixedArray::<i32, 255>::new(),
                buf_remainder: FixedArray::<u8, 4>::new(),
                little_endian: false,
                sum: 0,
            }
        }
    }

    /// The window size in bytes: four bytes for each integer.
    pub fn get_window_size(&self) -> (r: usize)
        requires
            self.wf(),
        ensures
            r == 4 * self@.window_size,
    {
        self.window_size * 4
    }

    pub fn get_sum(&self) -> (r: &i32)
        ensures
            *r == self@.sum,
    {
        &self.sum
    }

    pub fn get_buf(&self) -> (r: &FixedArray<i32, 255>)
        ensures
            r@ == self@.current,
            self.wf() ==> r.wf(),
    {
        &self.buf_current
    }

    pub fn set_sum(&mut self, value: i32)
        ensures
            final(self)@ == (ConverterModel { sum: value, ..old(self)@ }),
            old(self).wf() ==> final(self).wf(),
    {
        self.sum = value;
    }

    /// Decodes complete 4-byte groups of `buf[start_index..]` in the given
    /// byte order, up to the byte-window ceiling, and queues a trailing
    /// incomplete group as the remainder when the input stays inside the
    /// byte window.
    fn read_groups(&mut self, buf: &[u8], start_index: usize, little: bool)
        requires
            old(self).wf(),
            start_index <= buf@.len(),
            start_index <= 4 * old(self)@.window_size,
        ensures
            final(self).wf(),
            final(self)@ == read_step(old(self)@, buf@, start_index as int, little),
    {
        let ghost m0 = old(self)@;
        self.little_endian = little;
        let window_size: usize = self.get_window_size();
        let max_size: usize = if buf.len() < window_size {
            buf.len()
        } else {
            window_size
        };
        let ghost vals = groups(buf@, start_index as int, max_size as int, little);

        let mut off: usize = start_index;
        while max_size - off >= 4
            invariant
                self.wf(),
                start_index <= off <= max_size,
                max_size <= buf@.len(),
                max_size as int == if buf@.len() <= 4 * m0.window_size {
                    buf@.len() as int
                } else {
                    4 * m0.window_size as int
                },
                (off - start_index) % 4 == 0,
                (off - start_index) / 4 <= vals.len(),
                vals == groups(buf@, start_index as int, max_size as int, little),
                vals.len() == (max_size - start_index) / 4,
                m0.current.len() <= WINDOW_CAP,
                self@.window_size == m0.window_size,
                self@.last == m0.last,
                self@.remainder == m0.remainder,
                self@.little_endian == little,
                self@.current == append_capped(
                    m0.current,
                    vals.take((off - start_index) / 4),
                    WINDOW_CAP as int,
                ),
                self@.sum == wrap_sum_from(m0.sum, vals.take((off - start_index) / 4)),
            decreases max_size - off,
        {
            let ghost i = (off - start_index) as int / 4;
            let v = decode_word(buf[off], buf[off + 1], buf[off + 2], buf[off + 3], little);
            proof {
                assert(off == start_index + 4 * i);
                assert(i + 1 <= vals.len());
                assert(buf@.subrange(off as int, off as int + 4) =~= seq![
                    buf@[off as int],
                    buf@[off as int + 1],
                    buf@[off as int + 2],
                    buf@[off as int + 3],
                ]);
                assert(vals[i] == group_at(buf@, start_index + 4 * i, little));
                assert(v == vals[i]);
                lemma_append_capped_snoc(m0.current, vals.take(i), vals[i], WINDOW_CAP as int);
                lemma_wrap_sum_snoc(m0.sum, vals.take(i), vals[i]);
                assert(vals.take(i + 1) =~= vals.take(i).push(vals[i]));
            }
            self.buf_current.push(v);
            self.sum = self.sum.wrapping_add(v);
            off = off + 4;
            proof {
                assert((off - start_index) / 4 == i + 1);
            }
        }
        proof {
            let i = (off - start_index) as int / 4;
            assert(max_size - off < 4);
            assert(i == vals.len());
            assert(vals.take(vals.len() as int) =~= vals);
        }
        if off < max_size && buf.len() <= window_size {
            let rem_slice = vstd::slice::slice_subrange(buf, off, max_size);
            let _ = self.buf_remainder.extend_by_slice(rem_slice);
        }
        proof {
            assert(self@ =~= read_step(m0, buf@, start_index as int, little));
        }
    }

    /// Decodes the call's groups as little-endian integers; see
    /// `read_step` for the exact effect.
    pub fn read_little_endians(&mut self, buf: &[u8], start_index: usize)
        requires
            old(self).wf(),
            start_index <= buf@.len(),
            start_index <= 4 * old(self)@.window_size,
        ensures
            final(self).wf(),
            final(self)@ == read_step(old(self)@, buf@, start_index as int, true),
    {
        self.read_groups(buf, start_index, true)
    }

    /// Decodes the call's groups as big-endian integers; see `read_step`
    /// for the exact effect.
    pub fn read_big_endians(&mut self, buf: &[u8], start_index: usize)
        requires
            old(self).wf(),
            start_index <= buf@.len(),
            start_index <= 4 * old(self)@.window_size,
        ensures
            final(self).wf(),
            final(self)@ == read_step(old(self)@, buf@, start_index as int, false),
    {
        self.read_groups(buf, start_index, false)
    }

    /// Empties the current window; the running sum is left to the caller.
    pub fn clear_buf(&mut self)
        ensures
            final(self)@ == (ConverterModel { current: Seq::empty(), ..old(self)@ }),
            old(self).wf() ==> final(self).wf(),
    {
        self.buf_current.clear();
    }

    /// Rebuilds one complete 4-byte group from the pending remainder (one to
    /// three bytes) and the first `4 - len(remainder)` bytes of `buf`;
    /// `None` when no such group is pending or `buf` is too short to
    /// complete it.
    pub fn reconstruct_i32_bytes(&self, buf: &[u8]) -> (r: Option<FixedArray<u8, 4>>)
        requires
            self.wf(),
        ensures
            match r {
                Some(grp) => {
                    &&& 1 <= self@.remainder.len() <= 3
                    &&& buf@.len() >= 4 - self@.remainder.len()
                    &&& grp.wf()
                    &&& grp@ == self@.remainder + buf@.take(4 - self@.remainder.len())
                    &&& grp@.len() == 4
                },
                None => !(1 <= self@.remainder.len() <= 3 && buf@.len() >= 4
                    - self@.remainder.len()),
            },
    {
        let rem_len: usize = self.buf_remainder.len();
        if 1 <= rem_len && rem_len <= 3 {
            let need: usize = 4 - rem_len;
            match self.buf_remainder.get(0..rem_len) {
                Some(first_part) => {
                    if buf.len() >= need {
                        let sec_part = vstd::slice::slice_subrange(buf, 0, need);
                        let mut r_byte = FixedArray::<u8, 4>::new();
                        let _ = r_byte.extend_by_slice(first_part);
                        let _ = r_byte.extend_by_slice(sec_part);
                        proof {
                            assert(first_part@ =~= self@.remainder);
                            assert(sec_part@ =~= buf@.take(need as int));
                            assert(r_byte@ == self@.remainder + buf@.take(need as int));
                        }
                        Some(r_byte)
                    } else {
                        LOG.warn(
                            "cannot happen, because we are checking buf input at the start of conversion",
                        );
                        None
                    }
                }
                None => {
                    LOG.error("could not read the pending remainder bytes");
                    None
                }
            }
        } else {
            LOG.error("could not get together from byte sequences i32 value");
            None
        }
    }

    /// One decoding pass over `buf`: completes a pending group if one is
    /// carried over, decodes complete 4-byte groups in the detected byte
    /// order up to the byte-window ceiling, fills a short window from the
    /// previous one, and snapshots the first filled window. The exact
    /// effect on the state is `convert_spec`.
    pub fn convert_bytes_to_i32(&mut self, buf: &[u8])
        requires
            old(self).wf(),
        ensures
            final(self).wf(),
            final(self)@ == convert_spec(old(self)@, buf@),
    {
        let ghost m = old(self)@;
        if self.buf_remainder.is_empty() {
            if buf.len() < 8 {
                LOG.warn("first call does not have enough values for making statistics");
            } else {
                if buf[0] > buf[3] {
                    self.read_little_endians(buf, 0);
                } else {
                    self.read_big_endians(buf, 0);
                }
            }
        } else {
            match self.reconstruct_i32_bytes(buf) {
                Some(r_byte) => {
                    let bytes: &[u8] = r_byte.iter();
                    let little: bool = bytes[0] > bytes[3];
                    let v: i32 = decode_word(bytes[0], bytes[1], bytes[2], bytes[3], little);
                    proof {
                        let grp = m.remainder + buf@.take(4 - m.remainder.len());
                        assert(grp =~= seq![grp[0], grp[1], grp[2], grp[3]]);
                        assert(v == decode_i32(grp, little));
                        assert(append_capped(m.current, seq![v], WINDOW_CAP as int) == (
                        if m.current.len() < WINDOW_CAP {
                            m.current.push(v)
                        } else {
                            m.current
                        })) by {
                            if m.current.len() + 1 <= WINDOW_CAP {
                                assert(m.current + seq![v] =~= m.current.push(v));
                            }
                        };
                    }
                    self.buf_current.push(v);
                    self.sum = self.sum.wrapping_add(v);
                    let start_index: usize = 4 - self.buf_remainder.len();
                    if little {
                        self.read_little_endians(buf, start_index);
                    } else {
                        self.read_big_endians(buf, start_index);
                    }
                }
                None => {
                    LOG.error("could not get together i32 value from previous and next write call");
                }
            }
            self.buf_remainder.clear();
        }
        proof {
            assert(self@ =~= decode_phase(m, buf@));
        }
        let ghost md = decode_phase(m, buf@);

        if !self.buf_last.is_empty() && self.buf_current.len() < self.window_size {
            let gap_len: usize = self.window_size - self.buf_current.len();
            if self.buf_last.len() >= gap_len {
                match self.buf_last.get(0..gap_len) {
                    Some(extend_data) => {
                        let _ = self.buf_current.extend_by_slice(extend_data);
                        self.sum = add_wrapped(self.sum, extend_data);
                        proof {
                            assert(extend_data@ =~= md.last.take(gap_len as int));
                        }
                    }
                    None => {
                    }
                }
            } else {
                let _ = self.buf_current.extend_by_array(&self.buf_last);
                self.sum = add_wrapped(self.sum, self.buf_last.iter());
                LOG.warn("buf_current does not fill window_size constraint, either from last write call");
            }
        }
        proof {
            assert(self@ =~= gap_fill_phase(md));
        }
        let ghost mg = gap_fill_phase(md);

        if self.buf_last.is_empty() {
            self.buf_last.clear();
            let _ = self.buf_last.extend_by_array(&self.buf_current);
        }
        LOG.info("conversion of byte sequence into i32 values is complete");
        proof {
            assert(self@ =~= snapshot_phase(mg));
        }
    }

    /// One write call: resets the current window and the running sum, then
    /// decodes `buf` as `convert_spec` says; an empty input is only
    /// reported and changes nothing else. After any call driven through
    /// here at most three bytes are pending.
    pub fn ingest(&mut self, buf: &[u8])
        requires
            old(self).wf(),
        ensures
            final(self).wf(),
            final(self)@ == ingest_spec(old(self)@, buf@),
            buf@.len() > 0 ==> final(self)@.remainder.len() <= 3,
            old(self)@.remainder.len() <= 3 ==> final(self)@.remainder.len() <= 3,
    {
        self.set_sum(0);
        self.clear_buf();
        if buf.len() > 0 {
            self.convert_bytes_to_i32(buf);
        } else {
            LOG.error("cannot proceed with empty value, put at least one byte into the input");
        }
        proof {
            let m0 = ConverterModel { current: Seq::empty(), sum: 0, ..old(self)@ };
            if buf@.len() > 0 && m0.remainder.len() == 0 && buf@.len() >= 8 {
                let limit = if buf@.len() <= 4 * m0.window_size {
                    buf@.len() as int
                } else {
                    4 * m0.window_size as int
                };
                let vals = groups(buf@, 0, limit, true);
                assert(vals.len() == limit / 4);
                assert(limit - 4 * (limit / 4) == limit % 4);
                let vals_be = groups(buf@, 0, limit, false);
                assert(vals_be.len() == limit / 4);
            }
        }
    }
}

/// Adds every value of `values` to `acc` with wrapping addition, as the
/// running sum is accumulated.
fn add_wrapped(acc: i32, values: &[i32]) -> (r: i32)
    ensures
        r == wrap_sum_from(acc, values@),
{
    let mut r: i32 = acc;
    let mut i: usize = 0;
    while i < values.len()
        invariant
            i <= values@.len(),
            r == wrap_sum_from(acc, values@.take(i as int)),
        decreases values@.len() - i,
    {
        proof {
            lemma_wrap_sum_snoc(acc, values@.take(i as int), values@[i as int]);
            assert(values@.take(i as int + 1) =~= values@.take(i as int).push(values@[i as int]));
        }
        r = r.wrapping_add(values[i]);
        i = i + 1;
    }
    proof {
        assert(values@.take(values@.len() as int) =~= values@);
    }
    r
}

} // verus!
