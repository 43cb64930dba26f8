use slint_omarchy::calendar::{CalendarDate, MonthPage, MAX_YEAR, MIN_YEAR};

#[test]
fn leap_year_and_weekday_rules() {
    let february = MonthPage::new(2028, 2).unwrap();
    assert_eq!(february.days, 29);
    assert_eq!(february.leading, 2);
    assert_eq!(february.previous_days, 31);
    assert!(february.selectable_date(29).is_some());
    assert!(february.selectable_date(26).is_none());
    assert!(february.selectable_date(30).is_none());
}

#[test]
fn shifting_crosses_year_boundary() {
    let december = MonthPage::new(2026, 12).unwrap();
    let january = december.shifted(1).unwrap();
    assert_eq!((january.year, january.month), (2027, 1));
    assert_eq!(
        (
            january.shifted(-1).unwrap().year,
            january.shifted(-1).unwrap().month
        ),
        (2026, 12)
    );
}

#[test]
fn adjacent_month_dates_respect_weekday_rules() {
    let january = MonthPage::new(2027, 1).unwrap();
    assert_eq!(january.leading, 5);
    assert_eq!(january.previous_days, 31);
    assert_eq!(
        january.selectable_offset_date(-1, 31),
        Some(CalendarDate { year: 2026, month: 12, day: 31 })
    );
    assert_eq!(
        january.selectable_offset_date(1, 1),
        Some(CalendarDate { year: 2027, month: 2, day: 1 })
    );
    assert!(january.selectable_offset_date(-1, 27).is_none());
}

#[test]
fn month_pages_carry_name_and_lengths() {
    let march = MonthPage::new(2026, 3).unwrap();
    assert_eq!(march.label, "March");
    assert_eq!(march.days, 31);
    assert_eq!(march.previous_days, 28);
    assert_eq!(march.leading, 0);
    let century = MonthPage::new(1900, 3).unwrap();
    assert_eq!(century.previous_days, 28);
    let quad = MonthPage::new(2000, 3).unwrap();
    assert_eq!(quad.previous_days, 29);
    assert_eq!(MonthPage::new(2026, 9).unwrap().label, "September");
    assert_eq!(MonthPage::new(2026, 11).unwrap().days, 30);
}

#[test]
fn invalid_months_and_edges_have_no_page() {
    assert!(MonthPage::new(2026, 0).is_none());
    assert!(MonthPage::new(2026, 13).is_none());
    assert!(MonthPage::new(MAX_YEAR, 12).is_none());
    assert!(MonthPage::new(MAX_YEAR, 11).is_some());
    assert!(MonthPage::new(MIN_YEAR, 1).is_none());
    assert!(MonthPage::new(MIN_YEAR, 2).is_some());
    assert!(MonthPage::new(MAX_YEAR + 1, 1).is_none());
    assert!(MonthPage::new(i32::MIN, 6).is_none());
}

#[test]
fn shifting_composes_and_reaches_far_months() {
    let page = MonthPage::new(2026, 5).unwrap();
    let later = page.shifted(-17).unwrap();
    assert_eq!((later.year, later.month), (2024, 12));
    let back = later.shifted(17).unwrap();
    assert_eq!((back.year, back.month), (2026, 5));
    let twice = page.shifted(7).unwrap().shifted(8).unwrap();
    let once = page.shifted(15).unwrap();
    assert_eq!((twice.year, twice.month), (once.year, once.month));
    assert!(page.shifted(i32::MAX).is_none());
    assert!(page.shifted(i32::MIN).is_none());
}

#[test]
fn weekends_are_not_selectable() {
    let may = MonthPage::new(2026, 5).unwrap();
    assert!(may.selectable_date(2).is_none());
    assert!(may.selectable_date(3).is_none());
    assert_eq!(
        may.selectable_date(4),
        Some(CalendarDate { year: 2026, month: 5, day: 4 })
    );
    assert!(may.selectable_date(0).is_none());
    assert!(may.selectable_date(32).is_none());
}
