//! Time series of a query, bucketed by a fixed interval.
use vstd::prelude::*;

verus! {

/// The time range of a query, in seconds since the epoch: `from` up to `to`.
#[derive(Debug, PartialEq, Eq, Clone, Copy)]
pub struct Range {
    pub from: i64,
    pub to: i64,
}

/// The number of whole intervals of `interval` seconds in the range.
pub open spec fn bucket_count(range: Range, interval: int) -> int {
    (range.to - range.from) / interval
}

/// The bucket of a point stamped `time_ms` milliseconds since the epoch: its whole seconds,
/// counted from the start of the range in intervals.
pub open spec fn bucket_of(range: Range, interval: int, time_ms: int) -> int {
    (time_ms / 1000 - range.from) / interval
}

/// The value that bucket `k` shows: that of the last point in it, else zero.
pub open spec fn bucket_value(range: Range, interval: int, points: Seq<[u64; 2]>, k: int) -> u64
    decreases points.len(),
{
    if points.len() == 0 {
        0
    } else if bucket_of(range, interval, points.last()[1] as int) == k {
        points.last()[0]
    } else {
        bucket_value(range, interval, points.drop_last(), k)
    }
}

/// Points `[value, time_ms]` that each fall in a bucket of the range.
pub open spec fn points_in_range(range: Range, interval: int, points: Seq<[u64; 2]>) -> bool {
    forall|i: int|
        0 <= i < points.len() ==> {
            &&& #[trigger] points[i][1] <= i64::MAX
            &&& points[i][1] / 1000 >= range.from
            &&& bucket_of(range, interval, points[i][1] as int) < bucket_count(range, interval)
        }
}

/// One `[value, time_ms]` datapoint for each interval of the range, stamped with the start of
/// the interval in milliseconds; an interval without a point shows zero.
pub fn fill_datapoints(range: &Range, interval: i64, points: &[[u64; 2]]) -> (r: Vec<[u64; 2]>)
    requires
        0 <= range.from <= range.to <= i64::MAX / 1000,
        interval >= 1,
        points_in_range(*range, interval as int, points@),
    ensures
        r@.len() == bucket_count(*range, interval as int),
        forall|k: int|
            #![trigger r@[k]]
            0 <= k < r@.len() ==> {
                &&& r@[k][1] == (range.from + k * interval) * 1000
                &&& r@[k][0] == bucket_value(*range, interval as int, points@, k)
            },
{
    let elements: i64 = (range.to - range.from) / interval;
    let ghost iv = interval as int;
    let mut data: Vec<[u64; 2]> = Vec::new();
    let mut k: i64 = 0;
    while k < elements
        invariant
            0 <= k <= elements,
            elements == bucket_count(*range, iv),
            iv == interval,
            interval >= 1,
            0 <= range.from <= range.to <= i64::MAX / 1000,
            data@.len() == k,
            forall|j: int|
                #![trigger data@[j]]
                0 <= j < k ==> {
                    &&& data@[j][1] == (range.from + j * interval) * 1000
                    &&& data@[j][0] == 0
                },
        decreases elements - k,
    {
        assert(k * interval <= range.to - range.from) by (nonlinear_arith)
            requires
                k < elements,
                elements == (range.to - range.from) as int / interval as int,
                interval >= 1,
                range.to - range.from >= 0,
        ;
        let time = ((range.from + k * interval) * 1000) as u64;
        data.push([0, time]);
        k = k + 1;
    }
    assert(points@.take(0) =~= Seq::<[u64; 2]>::empty());
    let mut i: usize = 0;
    while i < points.len()
        invariant
            i <= points@.len(),
            points_in_range(*range, iv, points@),
            elements == bucket_count(*range, iv),
            iv == interval,
            interval >= 1,
            0 <= range.from <= range.to <= i64::MAX / 1000,
            data@.len() == elements,
            forall|j: int|
                #![trigger data@[j]]
                0 <= j < elements ==> {
                    &&& data@[j][1] == (range.from + j * interval) * 1000
                    &&& data@[j][0] == bucket_value(*range, iv, points@.take(i as int), j)
                },
        decreases points@.len() - i,
    {
        let p = points[i];
        assert(points@[i as int] == p);
        assert(p[1] <= i64::MAX && p[1] / 1000 >= range.from);
        let secs: i64 = (p[1] as i64) / 1000;
        let index: i64 = (secs - range.from) / interval;
        assert(index == bucket_of(*range, iv, p[1] as int));
        assert(0 <= index < elements) by (nonlinear_arith)
            requires
                index == (secs - range.from) as int / interval as int,
                secs >= range.from,
                interval >= 1,
                index < elements,
        ;
        let ghost pre = points@.take(i as int);
        let ghost next = points@.take(i + 1);
        assert(next.drop_last() == pre);
        assert(next.last() == p);
        let ghost before = data@;
        let time = data[index as usize][1];
        data.set(index as usize, [p[0], time]);
        assert forall|j: int| #![trigger data@[j]] 0 <= j < elements implies {
            &&& data@[j][1] == (range.from + j * interval) * 1000
            &&& data@[j][0] == bucket_value(*range, iv, next, j)
        } by {
            assert(before[j][1] == (range.from + j * interval) * 1000);
            if j != index {
                assert(data@[j] == before[j]);
            }
        }
        i = i + 1;
    }
    assert(points@.take(points@.len() as int) == points@);
    data
}

} // verus!
