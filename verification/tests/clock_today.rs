use birthday::clock::today;
use birthday::date::month_length;

#[test]
fn today_is_a_well_formed_date() {
    let d = today().expect("the current year is within the supported range");
    assert!(1 <= d.year && d.year < 9999);
    assert!(1 <= d.month && d.month <= 12);
    assert!(1 <= d.day && d.day <= month_length(d.year, d.month));
    assert!(d.year >= 2026);
}
