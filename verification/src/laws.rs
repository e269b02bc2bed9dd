use vstd::prelude::*;

use crate::byte_converter::{
    append_capped, decode_phase, gap_fill_phase, groups, ingest_spec, init_model,
    lemma_append_capped_prefix, lemma_wrap_sum_append, read_step, snapshot_phase, wrap_add,
    wrap_sum_from, ConverterModel, WINDOW_CAP,
};
use crate::endian::decode_i32;

verus! {

/// Exact (unbounded) sum of a sequence of decoded values.
pub open spec fn int_sum(s: Seq<i32>) -> int
    decreases s.len(),
{
    if s.len() == 0 {
        0
    } else {
        s[0] + int_sum(s.drop_first())
    }
}

/// Constructing with a window size of zero behaves exactly like
/// constructing with the default window size of 3.
pub proof fn lemma_zero_window_defaults()
    ensures
        init_model(0) == init_model(3),
{
}

/// As long as no intermediate running sum leaves the `i32` range, the
/// wrapping running sum equals the exact sum.
pub proof fn lemma_wrap_sum_exact(acc: i32, vals: Seq<i32>)
    requires
        forall|i: int|
            0 <= i <= vals.len() ==> i32::MIN <= acc + int_sum(#[trigger] vals.take(i))
                <= i32::MAX,
    ensures
        wrap_sum_from(acc, vals) == acc + int_sum(vals),
    decreases vals.len(),
{
    if vals.len() == 0 {
    } else {
        assert(vals.take(1) =~= seq![vals[0]]);
        assert(seq![vals[0]].drop_first() =~= Seq::<i32>::empty());
        assert(int_sum(Seq::<i32>::empty()) == 0);
        assert(int_sum(seq![vals[0]]) == vals[0] + int_sum(seq![vals[0]].drop_first()));
        assert(int_sum(vals.take(1)) == vals[0]);
        assert(i32::MIN <= acc + int_sum(vals.take(1)) <= i32::MAX);
        let acc1 = wrap_add(acc, vals[0]);
        assert(acc1 == acc + vals[0]);
        assert forall|i: int|
            0 <= i <= vals.drop_first().len() implies i32::MIN <= acc1 + int_sum(
            #[trigger] vals.drop_first().take(i),
        ) <= i32::MAX by {
            assert(vals.take(i + 1).drop_first() =~= vals.drop_first().take(i));
            assert(vals.take(i + 1)[0] == vals[0]);
            assert(int_sum(vals.take(i + 1)) == vals[0] + int_sum(vals.take(i + 1).drop_first()));
            assert(i32::MIN <= acc + int_sum(vals.take(i + 1)) <= i32::MAX);
        }
        lemma_wrap_sum_exact(acc1, vals.drop_first());
    }
}

/// An ingest call on a decoder with no pending remainder and no previous
/// window, whose input is whole groups within the byte window, decodes
/// exactly those groups in the detected byte order: they become the current
/// window, their wrapping sum becomes the running sum, and they are
/// snapshotted as the previous window.
pub proof fn lemma_ingest_fresh(m: ConverterModel, buf: Seq<u8>)
    requires
        m.remainder.len() == 0,
        m.last.len() == 0,
        8 <= buf.len(),
        buf.len() <= 4 * m.window_size,
        buf.len() % 4 == 0,
        m.window_size <= WINDOW_CAP,
    ensures
        ({
            let little = buf[0] > buf[3];
            let vals = groups(buf, 0, buf.len() as int, little);
            &&& vals.len() == buf.len() / 4
            &&& ingest_spec(m, buf).current == vals
            &&& ingest_spec(m, buf).sum == wrap_sum_from(0i32, vals)
            &&& ingest_spec(m, buf).last == vals
            &&& ingest_spec(m, buf).remainder.len() == 0
            &&& ingest_spec(m, buf).window_size == m.window_size
        }),
{
    let little = buf[0] > buf[3];
    let m0 = ConverterModel { current: Seq::empty(), sum: 0, ..m };
    let limit = buf.len() as int;
    let vals = groups(buf, 0, limit, little);
    assert(vals.len() == limit / 4);
    assert(4 * (limit / 4) == limit) by {
        assert(limit % 4 == 0);
        assert(limit == 4 * (limit / 4) + limit % 4);
    }
    let md = read_step(m0, buf, 0, little);
    assert(buf.subrange(4 * vals.len() as int, limit).len() == 0);
    assert(append_capped(Seq::<i32>::empty(), vals, WINDOW_CAP as int) =~= vals) by {
        assert(vals.len() <= WINDOW_CAP);
        assert(Seq::<i32>::empty() + vals =~= vals);
    }
    assert(md.current == vals);
    assert(md == decode_phase(m0, buf));
    assert(gap_fill_phase(md) == md);
    assert(snapshot_phase(md).last == vals || vals.len() == 0);
    assert(vals.len() >= 2) by {
        assert(limit >= 8);
        assert(limit / 4 >= 2);
    }
}

/// A single ingest call with exactly one whole window of bytes, on a fresh
/// decoder, yields a current window of exactly `window_size` integers — the
/// groups of the input, decoded in the detected byte order — and their
/// wrapping sum as the running sum.
pub proof fn lemma_single_full_window(m: ConverterModel, buf: Seq<u8>)
    requires
        m.remainder.len() == 0,
        m.last.len() == 0,
        2 <= m.window_size <= WINDOW_CAP,
        buf.len() == 4 * m.window_size,
    ensures
        ({
            let little = buf[0] > buf[3];
            let vals = groups(buf, 0, buf.len() as int, little);
            &&& vals.len() == m.window_size
            &&& forall|i: int| 0 <= i < vals.len() ==> vals[i] == decode_i32(
                buf.subrange(4 * i, 4 * i + 4),
                little,
            )
            &&& ingest_spec(m, buf).current == vals
            &&& ingest_spec(m, buf).sum == wrap_sum_from(0i32, vals)
            &&& ingest_spec(m, buf).last == vals
        }),
{
    assert(buf.len() >= 8);
    assert(buf.len() % 4 == 0) by {
        assert(buf.len() == 4 * m.window_size);
        assert((4 * m.window_size) % 4 == 0) by (nonlinear_arith);
    }
    lemma_ingest_fresh(m, buf);
    assert(buf.len() / 4 == m.window_size) by {
        assert(buf.len() == 4 * m.window_size);
        assert((4 * m.window_size) / 4 == m.window_size) by (nonlinear_arith);
    }
}

/// A 4-byte group split across two calls is reassembled: the value decoded
/// from the pending remainder bytes followed by the first missing bytes of
/// the new input, in the byte order detected from that reassembled group,
/// stands first in the new current window.
pub proof fn lemma_remainder_reconstruction(m: ConverterModel, buf: Seq<u8>)
    requires
        1 <= m.remainder.len() <= 3,
        buf.len() >= 4 - m.remainder.len(),
    ensures
        ({
            let grp = m.remainder + buf.take(4 - m.remainder.len());
            let v = decode_i32(grp, grp[0] > grp[3]);
            &&& ingest_spec(m, buf).current.len() >= 1
            &&& ingest_spec(m, buf).current[0] == v
            &&& ingest_spec(m, buf).remainder.len() == 0
        }),
{
    let m0 = ConverterModel { current: Seq::empty(), sum: 0, ..m };
    assert(buf.len() >= 1);
    let take_len = 4 - m.remainder.len();
    let grp = m.remainder + buf.take(take_len as int);
    let little = grp[0] > grp[3];
    let v = decode_i32(grp, little);
    let m1 = ConverterModel {
        window_size: m0.window_size,
        last: m0.last,
        current: append_capped(m0.current, seq![v], WINDOW_CAP as int),
        remainder: m0.remainder,
        little_endian: m0.little_endian,
        sum: wrap_add(m0.sum, v),
    };
    assert(m1.current =~= seq![v]) by {
        assert(Seq::<i32>::empty() + seq![v] =~= seq![v]);
    }
    let m2 = read_step(m1, buf, take_len as int, little);
    lemma_append_capped_prefix(
        m1.current,
        groups(
            buf,
            take_len as int,
            if buf.len() <= 4 * m1.window_size {
                buf.len() as int
            } else {
                4 * m1.window_size as int
            },
            little,
        ),
        WINDOW_CAP as int,
    );
    assert(m2.current.len() >= 1 && m2.current[0] == v);
    let md = decode_phase(m0, buf);
    assert(md.current == m2.current);
    let mg = gap_fill_phase(md);
    assert(mg.current.len() >= 1 && mg.current[0] == v);
    assert(snapshot_phase(mg).current == mg.current);
}

/// A call that decodes fewer than `window_size` values, on a decoder whose
/// previous window holds at least the shortfall, is filled up to exactly
/// `window_size` values from the front of the previous window, and the
/// filled values join the running sum.
pub proof fn lemma_short_call_gap_fill(m: ConverterModel, buf: Seq<u8>)
    requires
        m.remainder.len() == 0,
        8 <= buf.len(),
        buf.len() < 4 * m.window_size,
        buf.len() % 4 == 0,
        m.window_size <= WINDOW_CAP,
        m.last.len() >= m.window_size - buf.len() / 4,
        m.last.len() >= 1,
    ensures
        ({
            let little = buf[0] > buf[3];
            let vals = groups(buf, 0, buf.len() as int, little);
            let gap = m.window_size - vals.len();
            &&& ingest_spec(m, buf).current == vals + m.last.take(gap)
            &&& ingest_spec(m, buf).current.len() == m.window_size
            &&& ingest_spec(m, buf).sum == wrap_sum_from(0i32, vals + m.last.take(gap))
            &&& ingest_spec(m, buf).last == m.last
        }),
{
    let little = buf[0] > buf[3];
    let m0 = ConverterModel { current: Seq::empty(), sum: 0, ..m };
    let limit = buf.len() as int;
    let vals = groups(buf, 0, limit, little);
    assert(vals.len() == limit / 4);
    assert(4 * (limit / 4) == limit) by {
        assert(limit == 4 * (limit / 4) + limit % 4);
    }
    assert(vals.len() < m.window_size) by {
        assert(limit < 4 * m.window_size);
        assert(4 * (limit / 4) == limit);
        assert(limit / 4 < m.window_size) by (nonlinear_arith)
            requires
                4 * (limit / 4) == limit,
                limit < 4 * m.window_size,
        ;
    }
    let md = read_step(m0, buf, 0, little);
    assert(buf.subrange(4 * vals.len() as int, limit).len() == 0);
    assert(append_capped(Seq::<i32>::empty(), vals, WINDOW_CAP as int) =~= vals) by {
        assert(Seq::<i32>::empty() + vals =~= vals);
    }
    assert(md.current == vals);
    assert(md == decode_phase(m0, buf));
    let gap = m.window_size - vals.len();
    let mg = gap_fill_phase(md);
    assert(mg.current == vals + m.last.take(gap as int));
    assert(mg.sum == wrap_sum_from(md.sum, m.last.take(gap as int)));
    lemma_wrap_sum_append(0i32, vals, m.last.take(gap as int));
    assert(mg.current.len() == m.window_size);
    assert(snapshot_phase(mg) == mg);
}

} // verus!
