use s3perf::generator::ObjSize;
use s3perf::pacing::{pace, Pace};
use s3perf::units::{duration_unit, is_size_strategy, parse_obj_size_with, size_unit};

#[test]
fn size_units_are_split_off() {
    assert_eq!(size_unit("10MiB"), ("10".to_string(), 1_048_576));
    assert_eq!(size_unit(" 2 GiB "), ("2".to_string(), 1_073_741_824));
    assert_eq!(size_unit("4kib"), ("4".to_string(), 1024));
    assert_eq!(size_unit("1.5g"), ("1.5".to_string(), 1_000_000_000));
    assert_eq!(size_unit("3M"), ("3".to_string(), 1_000_000));
    assert_eq!(size_unit("7k"), ("7".to_string(), 1000));
    assert_eq!(size_unit("512b"), ("512".to_string(), 1));
    assert_eq!(size_unit("4096"), ("4096".to_string(), 1));
    assert_eq!(size_unit("5kb"), ("5k".to_string(), 1));
}

#[test]
fn duration_units_are_split_off() {
    assert_eq!(duration_unit("5m"), ("5".to_string(), 60));
    assert_eq!(duration_unit(" 30s"), ("30".to_string(), 1));
    assert_eq!(duration_unit("1h"), ("1".to_string(), 3600));
    assert_eq!(duration_unit("0.5h"), ("0.5".to_string(), 3600));
    assert_eq!(duration_unit("42"), ("42".to_string(), 1));
}

#[test]
fn object_size_arguments_choose_their_parser() {
    assert!(is_size_strategy("rand:1024"));
    assert!(is_size_strategy("1024:1,2048:3"));
    assert!(!is_size_strategy("10MiB"));
    assert!(matches!(parse_obj_size_with("rand:4096", Err("unused".to_string())), Ok(ObjSize::Random { max: 4096 })));
    assert!(matches!(parse_obj_size_with("10MiB", Ok(10_485_760)), Ok(ObjSize::Fixed(10_485_760))));
    assert_eq!(parse_obj_size_with("xyz", Err("invalid size".to_string())).err(), Some("invalid size".to_string()));
}

#[test]
fn pacing_spaces_requests() {
    assert_eq!(pace(None, 100, 50), Pace::Go { stamp: 100 });
    assert_eq!(pace(Some(100), 120, 50), Pace::Wait { nanos: 30, stamp: 150 });
    assert_eq!(pace(Some(100), 150, 50), Pace::Go { stamp: 150 });
    assert_eq!(pace(Some(100), 400, 50), Pace::Go { stamp: 400 });
    assert_eq!(pace(Some(100), 100, 0), Pace::Go { stamp: 100 });
}

#[test]
fn grants_in_sequence_follow_the_interval() {
    let interval = 100;
    let asks = [0i64, 10, 50, 400, 410, 2000];
    let mut last: Option<i64> = None;
    let mut grants = Vec::new();
    for &t in &asks {
        let p = pace(last, t, interval);
        last = Some(p.stamp());
        grants.push(p.stamp());
    }
    assert_eq!(grants, vec![0, 100, 200, 400, 500, 2000]);
    assert_eq!(pace(Some(2000), 2050, interval), Pace::Wait { nanos: 50, stamp: 2100 });
}
