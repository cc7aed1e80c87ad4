use batmon::args;
use batmon::engine::Datapoint;
use batmon::engine::Measurement;
use batmon::reading::parse_reading;
use batmon::Error;
use batmon::mWh;
use batmon::uWh;

// ---- unit model ----

#[test]
fn convert_roundtrip_exact() {
    let raw: u32 = 1234;
    let tagged = uWh::from_raw(raw);
    let canonical = mWh::from(tagged);
    assert_eq!(canonical.micros, 1234);
}

#[test]
fn convert_is_linear() {
    let a = mWh::from(uWh::from_raw(1500));
    let b = mWh::from(uWh::from_raw(2500));
    let both = mWh::from(uWh::from_raw(4000));
    assert_eq!(a.plus(b), both);
}

#[test]
fn unit_arithmetic() {
    let a = mWh { micros: 5000 };
    let b = mWh { micros: 1200 };
    assert_eq!(a.plus(b).micros, 6200);
    assert_eq!(a.minus(b).micros, 3800);
    assert_eq!(b.minus(a).micros, -3800);
    assert_eq!(b.scaled_by(3).micros, 3600);
    assert_eq!(a.divided_by(3).micros, 1666);
    assert_eq!(mWh { micros: -3800 }.divided_by(3).micros, -1266);
    assert_eq!(mWh { micros: i64::MIN }.divided_by(1).micros, i64::MIN);
    assert_eq!(mWh { micros: i64::MIN }.divided_by(2).micros, i64::MIN / 2);
}

// ---- reading the source ----

#[test]
fn parse_reading_plain() {
    assert_eq!(parse_reading(b"1000"), Ok(1000));
}

#[test]
fn parse_reading_trims_whitespace() {
    assert_eq!(parse_reading(b" \t123\n"), Ok(123));
}

#[test]
fn parse_reading_accepts_plus_sign() {
    assert_eq!(parse_reading(b"+42"), Ok(42));
}

#[test]
fn parse_reading_zero() {
    assert_eq!(parse_reading(b"0"), Ok(0));
}

#[test]
fn parse_reading_largest() {
    assert_eq!(parse_reading(b"4294967295"), Ok(u32::MAX));
}

#[test]
fn parse_reading_overflow_is_error() {
    assert_eq!(parse_reading(b"4294967296"), Err(Error::SourceParseError));
    assert_eq!(parse_reading(b"999999999999999999999"), Err(Error::SourceParseError));
}

#[test]
fn parse_reading_empty_is_error() {
    assert_eq!(parse_reading(b""), Err(Error::SourceParseError));
    assert_eq!(parse_reading(b" \n"), Err(Error::SourceParseError));
    assert_eq!(parse_reading(b"+"), Err(Error::SourceParseError));
}

#[test]
fn parse_reading_non_numeric_is_error() {
    assert_eq!(parse_reading(b"abc"), Err(Error::SourceParseError));
    assert_eq!(parse_reading(b"12a"), Err(Error::SourceParseError));
    assert_eq!(parse_reading(b"-5"), Err(Error::SourceParseError));
    assert_eq!(parse_reading(b"1 2"), Err(Error::SourceParseError));
}

// ---- command-line validation ----

#[test]
fn parse_args_whole_seconds() {
    let a = args::parse(b"1", 60).unwrap();
    assert_eq!(a.interval_ms, 1000);
    assert_eq!(a.num_samples, 60);
}

#[test]
fn parse_args_fraction() {
    assert_eq!(args::parse(b"0.5", 3).unwrap().interval_ms, 500);
    assert_eq!(args::parse(b".25", 3).unwrap().interval_ms, 250);
    assert_eq!(args::parse(b"2.", 3).unwrap().interval_ms, 2000);
}

#[test]
fn parse_args_truncates_past_millisecond() {
    assert_eq!(args::parse(b"0.1239", 3).unwrap().interval_ms, 123);
}

#[test]
fn parse_args_zero_interval_is_rejected() {
    assert!(args::parse(b"0", 3).is_none());
    assert!(args::parse(b"0.0004", 3).is_none());
}

#[test]
fn parse_args_invalid_text_is_rejected() {
    assert!(args::parse(b"abc", 3).is_none());
    assert!(args::parse(b"1.2.3", 3).is_none());
    assert!(args::parse(b"", 3).is_none());
    assert!(args::parse(b".", 3).is_none());
    assert!(args::parse(b"-1", 3).is_none());
}

#[test]
fn parse_args_zero_capacity_is_rejected() {
    assert!(args::parse(b"1", 0).is_none());
}

// ---- the engine and its history ----

#[test]
fn new_engine_is_idle_and_empty() {
    let m = Measurement::new(1000, 3);
    assert!(!m.started);
    assert_eq!(m.len(), 0);
    assert!(m.front().is_none());
}

#[test]
fn begin_starts_the_run_once() {
    let mut m = Measurement::new(1000, 3);
    m.begin();
    assert!(m.started);
    assert_eq!(m.len(), 0);
}

#[test]
fn history_scenario_evicts_oldest() {
    // interval one second, capacity three, readings 1000, 2000, 3000, 4000:
    // after four ticks the history holds 4000, 3000, 2000 newest-first and
    // the oldest reading is gone.
    let mut m = Measurement::new(1000, 3);
    for (k, raw) in [1000u32, 2000, 3000, 4000].into_iter().enumerate() {
        m.push(Datapoint::from_reading(raw, k as i64 * 1000));
    }
    assert_eq!(m.len(), 3);
    assert_eq!(m.get(0).unwrap().power.micros, 4000);
    assert_eq!(m.get(1).unwrap().power.micros, 3000);
    assert_eq!(m.get(2).unwrap().power.micros, 2000);
    assert!(m.get(3).is_none());
}

#[test]
fn history_never_exceeds_capacity() {
    let mut m = Measurement::new(1000, 1);
    for raw in [10u32, 20, 30, 40, 50] {
        m.push(Datapoint::from_reading(raw, 0));
        assert_eq!(m.len(), 1);
    }
    assert_eq!(m.front().unwrap().power.micros, 50);
}

#[test]
fn history_grows_by_one_until_warm() {
    let mut m = Measurement::new(1000, 3);
    for (k, raw) in [1u32, 2, 3, 4, 5].into_iter().enumerate() {
        m.push(Datapoint::from_reading(raw, 0));
        assert_eq!(m.len(), (k + 1).min(3));
    }
}

#[test]
fn front_is_most_recent_sample() {
    let mut m = Measurement::new(1000, 3);
    m.push(Datapoint::from_reading(111, 5));
    assert_eq!(m.front().unwrap().power.micros, 111);
    assert_eq!(m.front().unwrap().time_ms, 5);
    m.push(Datapoint::from_reading(222, 6));
    assert_eq!(m.front().unwrap().power.micros, 222);
}

#[test]
fn iteration_is_idempotent() {
    let mut m = Measurement::new(1000, 3);
    for raw in [7u32, 8, 9] {
        m.push(Datapoint::from_reading(raw, 0));
    }
    let first: Vec<Datapoint> = m.dataset().iter().copied().collect();
    let second: Vec<Datapoint> = m.dataset().iter().copied().collect();
    assert_eq!(first, second);
    for i in 0..m.len() {
        assert_eq!(m.get(i), m.get(i));
    }
}

#[test]
fn power_delta_sum_telescopes() {
    let mut m = Measurement::new(1000, 5);
    assert!(m.power_delta_sum().is_none());
    m.push(Datapoint::from_reading(5000, 0));
    assert!(m.power_delta_sum().is_none());
    m.push(Datapoint::from_reading(4000, 1000));
    m.push(Datapoint::from_reading(3500, 2000));
    // history newest-first: 3500, 4000, 5000; the pairwise differences sum
    // to oldest minus newest.
    assert_eq!(m.power_delta_sum().unwrap().micros, 1500);
}

#[test]
fn average_power_over_span() {
    let mut m = Measurement::new(1000, 5);
    assert!(m.average_power().is_none());
    m.push(Datapoint::from_reading(5000, 0));
    assert!(m.average_power().is_none());
    m.push(Datapoint::from_reading(4000, 1000));
    m.push(Datapoint::from_reading(3500, 2000));
    // a 1500 delta over two one-second intervals: 750 per second
    assert_eq!(m.average_power().unwrap().micros, 750);
}

#[test]
fn average_power_can_be_negative() {
    // a counter that rose: the mean comes out negative, not masked
    let mut m = Measurement::new(1000, 5);
    m.push(Datapoint::from_reading(1000, 0));
    m.push(Datapoint::from_reading(2000, 1000));
    assert_eq!(m.average_power().unwrap().micros, -1000);
}

// ---- scheduling ----

#[test]
fn sleep_lands_on_the_grid() {
    let mut m = Measurement::new(1000, 3);
    m.start_time_ms = 0;
    m.started = true;
    assert_eq!(m.how_long_to_sleep(1500), Ok(500));
    assert_eq!(m.how_long_to_sleep(2000), Ok(0));
    assert_eq!(m.how_long_to_sleep(999), Ok(1));
}

#[test]
fn sleep_preserves_absolute_schedule() {
    // a tick delayed by 300 ms waits 700 ms: the next tick still lands on
    // start + 2 * interval, not 1300 + 1000.
    let mut m = Measurement::new(1000, 3);
    m.start_time_ms = 10_000;
    m.started = true;
    assert_eq!(m.how_long_to_sleep(11_300), Ok(700));
    assert_eq!(11_300 + 700, 10_000 + 2 * 1000);
}

#[test]
fn sleep_skips_missed_ticks() {
    // an overrun of more than one interval waits for the next future grid
    // point instead of bursting to catch up.
    let mut m = Measurement::new(1000, 3);
    m.start_time_ms = 0;
    m.started = true;
    assert_eq!(m.how_long_to_sleep(3700), Ok(300));
}

#[test]
fn sleep_before_start_is_a_scheduling_error() {
    let mut m = Measurement::new(1000, 3);
    m.start_time_ms = 5000;
    m.started = true;
    assert_eq!(m.how_long_to_sleep(4999), Err(Error::SchedulingError));
}

// ---- run scenarios, driven tick by tick as the sampling loop is ----

#[test]
fn tick_records_a_valid_reading() {
    let mut m = Measurement::new(1000, 3);
    assert_eq!(m.tick(Some(b" 750\n"), 42), Ok(()));
    assert_eq!(m.len(), 1);
    assert_eq!(m.front().unwrap().power.micros, 750);
    assert_eq!(m.front().unwrap().time_ms, 42);
}

#[test]
fn run_aborts_on_read_error_keeping_history() {
    let mut m = Measurement::new(1000, 3);
    assert_eq!(m.tick(Some(b"1000"), 0), Ok(()));
    // the second tick's read fails: the run aborts with the read error and
    // the history keeps the one sample recorded before the failure
    assert_eq!(m.tick(None, 1000), Err(Error::SourceReadError));
    assert_eq!(m.len(), 1);
    assert_eq!(m.front().unwrap().power.micros, 1000);
}

#[test]
fn run_aborts_when_hook_fails() {
    let mut m = Measurement::new(1000, 3);
    let outcome = {
        let mut hook_calls = 0;
        let mut run = || -> Result<(), Error> {
            for (k, raw) in [100u32, 200, 300].into_iter().enumerate() {
                m.push(Datapoint::from_reading(raw, k as i64 * 1000));
                hook_calls += 1;
                if hook_calls == 2 {
                    return Err(Error::CallbackError);
                }
            }
            Ok(())
        };
        run()
    };
    assert_eq!(outcome, Err(Error::CallbackError));
    assert_eq!(m.len(), 2);
    assert_eq!(m.front().unwrap().power.micros, 200);
}

#[test]
fn run_aborts_on_parse_error_before_any_sample() {
    let mut m = Measurement::new(1000, 3);
    assert_eq!(m.tick(Some(b"not a number"), 0), Err(Error::SourceParseError));
    assert_eq!(m.len(), 0);
}
