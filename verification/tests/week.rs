use chrono::{Datelike, NaiveDate};
use dawam::dawam::week_start;

#[test]
fn weeks_start_on_saturday() {
    let sat = NaiveDate::from_ymd_opt(2026, 9, 19).unwrap().num_days_from_ce();
    for i in 0..7 {
        assert_eq!(week_start(sat + i), sat);
    }
    assert_eq!(week_start(sat - 1), sat - 7);
}
