use atp_rs::catalog::rejects_disposition;
use atp_rs::text::{same_text, starts_with_text};
use atp_rs::units::{arcmin_scale, exposure_divisor, time_unit_seconds, ArcminScale};

fn to_arcmin(value: f64, unit: &str) -> f64 {
    match arcmin_scale(unit) {
        ArcminScale::Unchanged => value,
        ArcminScale::TimesSixty => value * 60.0,
        ArcminScale::DividedBySixty => value / 60.0,
    }
}

#[test]
fn test_time_resolution_conversion() {
    // time resolution: [60, 'second'], exclude radius: [3, 'arcmin'], radius: [10, 'arcmin']
    assert_eq!(60.0 * time_unit_seconds("second") as f64, 60.0);
    assert_eq!(to_arcmin(3.0, "arcmin"), 3.0);
    assert_eq!(to_arcmin(10.0, "arcmin"), 10.0);
}

#[test]
fn time_units() {
    assert_eq!(time_unit_seconds("second"), 1);
    assert_eq!(time_unit_seconds("minute"), 60);
    assert_eq!(time_unit_seconds("hour"), 3600);
    assert_eq!(time_unit_seconds("fortnight"), 1);
    assert_eq!(time_unit_seconds(""), 1);
    assert_eq!(time_unit_seconds("Minute"), 1);
}

#[test]
fn angle_units() {
    assert_eq!(arcmin_scale("arcmin"), ArcminScale::Unchanged);
    assert_eq!(arcmin_scale("degree"), ArcminScale::TimesSixty);
    assert_eq!(arcmin_scale("arcsec"), ArcminScale::DividedBySixty);
    assert_eq!(arcmin_scale("radian"), ArcminScale::Unchanged);
    assert_eq!(to_arcmin(0.5, "degree"), 30.0);
    assert_eq!(to_arcmin(120.0, "arcsec"), 2.0);
}

#[test]
fn exposure_units() {
    assert_eq!(exposure_divisor("ms"), 1000);
    assert_eq!(exposure_divisor("s"), 1);
    assert_eq!(exposure_divisor("us"), 1000);
    assert_eq!(5.0 / exposure_divisor("ms") as f64, 0.005);
    assert_eq!(30.0 / exposure_divisor("s") as f64, 30.0);
}

#[test]
fn dispositions() {
    assert!(!rejects_disposition(None));
    assert!(rejects_disposition(Some("SPLIT")));
    assert!(rejects_disposition(Some("DUPLICATE")));
    assert!(rejects_disposition(Some("DUPLICATE:12345")));
    assert!(!rejects_disposition(Some("SPLITTED")));
    assert!(!rejects_disposition(Some("split")));
    assert!(!rejects_disposition(Some("DUPLICAT")));
    assert!(!rejects_disposition(Some("")));
}

#[test]
fn text_helpers() {
    assert!(same_text("", ""));
    assert!(same_text("héllo", "héllo"));
    assert!(!same_text("hello", "hell"));
    assert!(!same_text("hello", "hellp"));
    assert!(starts_with_text("DUPLICATE1", "DUPLICATE"));
    assert!(starts_with_text("abc", ""));
    assert!(!starts_with_text("ab", "abc"));
    assert!(!starts_with_text("xbc", "abc"));
}
