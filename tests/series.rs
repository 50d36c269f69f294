use chrono::{TimeZone, Utc};
use rrinlog_core::series::{fill_datapoints, Range};

fn at(h: u32, m: u32, s: u32) -> i64 {
    Utc.with_ymd_and_hms(2014, 7, 8, h, m, s).unwrap().timestamp()
}

#[test]
fn fill_datapoints_empty() {
    let rng = Range {
        from: at(9, 10, 11),
        to: at(10, 10, 11),
    };
    let actual = fill_datapoints(&rng, 30, &Vec::new());

    // In an hour there are 120 - 30 second intervals in an hour
    assert_eq!(actual.len(), 120);

    // Ensure that the gap is interval is upheld
    assert_eq!(actual[1][1] - actual[0][1], 30 * 1000);

    let first_time = at(9, 10, 11) as u64;
    assert_eq!([0, first_time * 1000], actual[0]);
}

#[test]
fn fill_datapoints_one_filled() {
    let rng = Range {
        from: at(9, 10, 11),
        to: at(10, 10, 11),
    };

    let fill_time = (at(9, 11, 11) as u64) * 1000;
    let elem: [u64; 2] = [1, fill_time];

    let actual = fill_datapoints(&rng, 30, &vec![elem]);

    // In an hour there are 120 - 30 second intervals in an hour
    assert_eq!(actual.len(), 120);

    // Ensure that the gap is interval is upheld
    assert_eq!(actual[2][1] - actual[1][1], 30 * 1000);
    assert_eq!(actual[3][1] - actual[2][1], 30 * 1000);

    assert_eq!([1, fill_time], actual[2]);
}

#[test]
fn fill_datapoints_last_point_of_a_bucket_wins() {
    let rng = Range { from: 100, to: 190 };
    let points = vec![[5, 100_000], [7, 129_999], [9, 160_500], [4, 101_000]];
    let actual = fill_datapoints(&rng, 30, &points);
    assert_eq!(actual, vec![[4, 100_000], [0, 130_000], [9, 160_000]]);
}

#[test]
fn fill_datapoints_partial_interval_is_dropped() {
    let rng = Range { from: 0, to: 59 };
    assert_eq!(fill_datapoints(&rng, 30, &[]), vec![[0, 0]]);
    let empty = Range { from: 10, to: 10 };
    assert!(fill_datapoints(&empty, 1, &[]).is_empty());
}
