use chrono::{NaiveDate, NaiveDateTime, TimeDelta};
use gueltigkeit::zeit::{
    Zeitpunkt, MAX_SEKUNDEN, MIN_SEKUNDEN, NANOS_PRO_SEKUNDE, NANOS_PRO_TAG, SEKUNDEN_PRO_TAG,
};

fn von_chrono(t: NaiveDateTime) -> Zeitpunkt {
    Zeitpunkt::new(t.and_utc().timestamp(), t.and_utc().timestamp_subsec_nanos()).unwrap()
}

fn datum(jahr: i32, monat: u32, tag: u32, stunde: u32) -> NaiveDateTime {
    NaiveDate::from_ymd_opt(jahr, monat, tag).unwrap().and_hms_opt(stunde, 0, 0).unwrap()
}

#[test]
fn konstanten_passen_zusammen() {
    assert_eq!(NANOS_PRO_TAG, SEKUNDEN_PRO_TAG * NANOS_PRO_SEKUNDE);
    assert_eq!(SEKUNDEN_PRO_TAG, 24 * 60 * 60);
}

#[test]
fn grenzen_sind_die_von_chrono() {
    assert_eq!(NaiveDateTime::MIN.and_utc().timestamp(), MIN_SEKUNDEN);
    assert_eq!(NaiveDateTime::MIN.and_utc().timestamp_subsec_nanos(), 0);
    assert_eq!(NaiveDateTime::MAX.and_utc().timestamp(), MAX_SEKUNDEN);
    assert_eq!(NaiveDateTime::MAX.and_utc().timestamp_subsec_nanos(), 999_999_999);
}

#[test]
fn new_nimmt_genau_den_bereich_an() {
    assert!(Zeitpunkt::new(MIN_SEKUNDEN, 0).is_some());
    assert!(Zeitpunkt::new(MAX_SEKUNDEN, 999_999_999).is_some());
    assert!(Zeitpunkt::new(MIN_SEKUNDEN - 1, 0).is_none());
    assert!(Zeitpunkt::new(MAX_SEKUNDEN + 1, 0).is_none());
    assert!(Zeitpunkt::new(0, 1_000_000_000).is_none());
    assert!(Zeitpunkt::new(i64::MAX, 0).is_none());
    assert!(Zeitpunkt::new(i64::MIN, 0).is_none());
}

#[test]
fn sekunden_und_nanos_kommen_zurueck() {
    let z = Zeitpunkt::new(1_608_811_200, 123).unwrap();
    assert_eq!(z.sekunden(), 1_608_811_200);
    assert_eq!(z.nanos(), 123);
    let vorher = Zeitpunkt::new(-1, 999_999_999).unwrap();
    assert_eq!(vorher.sekunden(), -1);
    assert_eq!(vorher.nanos(), 999_999_999);
}

#[test]
fn heiligabend_mittag_ist_der_bekannte_zeitstempel() {
    let z = von_chrono(datum(2020, 12, 24, 12));
    assert_eq!(z.sekunden(), 1_608_811_200);
    assert_eq!(z.nanos(), 0);
}

#[test]
fn plus_tage_zaehlt_ganze_tage() {
    let z = Zeitpunkt::new(1_608_811_200, 5).unwrap();
    assert_eq!(z.plus_tage(7), Zeitpunkt::new(1_609_416_000, 5));
    assert_eq!(z.plus_tage(0), Some(z));
    assert_eq!(z.plus_tage(-24), Zeitpunkt::new(1_606_737_600, 5));
    assert_eq!(z.plus_tage(7).unwrap(), von_chrono(datum(2020, 12, 31, 12) + TimeDelta::nanoseconds(5)));
}

#[test]
fn plus_tage_geht_ueber_ein_schaltjahr() {
    let z = von_chrono(datum(2020, 2, 28, 12));
    assert_eq!(z.plus_tage(2), Some(von_chrono(datum(2020, 3, 1, 12))));
    let z = von_chrono(datum(2021, 2, 28, 12));
    assert_eq!(z.plus_tage(2), Some(von_chrono(datum(2021, 3, 2, 12))));
}

#[test]
fn plus_tage_ausserhalb_gibt_nichts() {
    let letzter = Zeitpunkt::new(MAX_SEKUNDEN, 999_999_999).unwrap();
    assert_eq!(letzter.plus_tage(0), Some(letzter));
    assert_eq!(letzter.plus_tage(1), None);
    assert_eq!(letzter.plus_tage(-1), Zeitpunkt::new(MAX_SEKUNDEN - 86_400, 999_999_999));
    let erster = Zeitpunkt::new(MIN_SEKUNDEN, 0).unwrap();
    assert_eq!(erster.plus_tage(-1), None);
    assert_eq!(erster.plus_tage(1), Zeitpunkt::new(MIN_SEKUNDEN + 86_400, 0));
    let z = Zeitpunkt::new(0, 0).unwrap();
    assert_eq!(z.plus_tage(i32::MAX), None);
    assert_eq!(z.plus_tage(i32::MIN), None);
}

#[test]
fn plus_tage_bis_an_die_grenze() {
    let z = Zeitpunkt::new(MAX_SEKUNDEN - 86_400, 0).unwrap();
    assert_eq!(z.plus_tage(1), Zeitpunkt::new(MAX_SEKUNDEN, 0));
    let z = Zeitpunkt::new(MAX_SEKUNDEN - 86_399, 0).unwrap();
    assert_eq!(z.plus_tage(1), None);
    let z = Zeitpunkt::new(MIN_SEKUNDEN + 86_400, 7).unwrap();
    assert_eq!(z.plus_tage(-1), Zeitpunkt::new(MIN_SEKUNDEN, 7));
    let z = Zeitpunkt::new(MIN_SEKUNDEN + 86_399, 7).unwrap();
    assert_eq!(z.plus_tage(-1), None);
}

#[test]
fn tage_bis_rundet_zur_null() {
    let a = von_chrono(datum(2020, 12, 24, 12));
    assert_eq!(a.tage_bis(&von_chrono(datum(2020, 12, 31, 12))), 7);
    assert_eq!(a.tage_bis(&von_chrono(datum(2020, 12, 26, 0))), 1);
    assert_eq!(a.tage_bis(&von_chrono(datum(2020, 12, 25, 11))), 0);
    assert_eq!(a.tage_bis(&a), 0);
    assert_eq!(von_chrono(datum(2020, 12, 31, 12)).tage_bis(&a), -7);
    assert_eq!(von_chrono(datum(2020, 12, 26, 0)).tage_bis(&a), -1);
    assert_eq!(von_chrono(datum(2020, 12, 25, 11)).tage_bis(&a), 0);
}

#[test]
fn tage_bis_achtet_auf_nanosekunden() {
    let a = Zeitpunkt::new(1_608_811_200, 1).unwrap();
    let b = Zeitpunkt::new(1_608_811_200 + 86_400, 0).unwrap();
    assert_eq!(a.tage_bis(&b), 0);
    assert_eq!(b.tage_bis(&a), 0);
    let c = Zeitpunkt::new(1_608_811_200 + 86_400, 1).unwrap();
    assert_eq!(a.tage_bis(&c), 1);
    assert_eq!(c.tage_bis(&a), -1);
}

#[test]
fn tage_bis_ueber_den_ganzen_bereich() {
    let erster = Zeitpunkt::new(MIN_SEKUNDEN, 0).unwrap();
    let letzter = Zeitpunkt::new(MAX_SEKUNDEN, 999_999_999).unwrap();
    assert_eq!(erster.tage_bis(&letzter), (MAX_SEKUNDEN - MIN_SEKUNDEN) / 86_400);
    assert_eq!(letzter.tage_bis(&erster), -((MAX_SEKUNDEN - MIN_SEKUNDEN) / 86_400));
    assert_eq!(erster.tage_bis(&letzter), 191_491_528);
}

#[test]
fn nicht_nach_vergleicht_bis_zur_nanosekunde() {
    let a = Zeitpunkt::new(10, 5).unwrap();
    let b = Zeitpunkt::new(10, 6).unwrap();
    let c = Zeitpunkt::new(11, 0).unwrap();
    assert!(a.nicht_nach(&a));
    assert!(a.nicht_nach(&b));
    assert!(!b.nicht_nach(&a));
    assert!(b.nicht_nach(&c));
    assert!(!c.nicht_nach(&b));
    let vor = Zeitpunkt::new(-5, 999_999_999).unwrap();
    let nach = Zeitpunkt::new(-4, 0).unwrap();
    assert!(vor.nicht_nach(&nach));
    assert!(!nach.nicht_nach(&vor));
}
