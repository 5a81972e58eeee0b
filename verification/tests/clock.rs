use chrono::{DateTime, Utc};
use dawam::calendar::{Id, Moment};
use dawam::dawam::clock::{
    parse_anchor, rebuild, rebuild_from, sign_anchor, verify_anchor, JwtSecret, OfflineStamp,
    Stamped, Verifier, MAX_AGE_DAYS,
};
use dawam::errors::{AppError, Var};
use uuid::Uuid;

const MINUTE: Moment = 60_000_000_000;
const HOUR: Moment = 60 * MINUTE;

fn t(s: &str) -> Moment {
    s.parse::<DateTime<Utc>>().unwrap().timestamp_nanos_opt().unwrap() as Moment
}

fn key() -> JwtSecret {
    JwtSecret("unit".into())
}

fn device() -> Id {
    Uuid::new_v4().as_u128()
}

fn copy(s: &OfflineStamp) -> OfflineStamp {
    OfflineStamp {
        server_time: s.server_time,
        elapsed_ms: s.elapsed_ms,
        rebooted: s.rebooted,
        gps_time: s.gps_time,
        anchor: s.anchor.clone(),
    }
}

fn code(r: Result<Stamped, AppError>) -> (u16, &'static str, Vec<(&'static str, Var)>) {
    match r {
        Err(AppError::CodedVars { status, code, vars, .. }) => (status, code, vars),
        other => panic!("not a coded refusal: {:?}", other.map(|s| s.at)),
    }
}

fn var<'a>(vars: &'a [(&'static str, Var)], name: &str) -> &'a Var {
    &vars.iter().find(|(n, _)| *n == name).unwrap().1
}

#[test]
fn rebuilds_from_a_signed_anchor_and_uptime() {
    let now = t("2026-09-22T10:00:00Z");
    let dev = device();
    let secret = key();
    let v = Verifier { secret: &secret, device: Some(dev) };
    let seen = t("2026-09-22T08:00:00Z");
    let s = OfflineStamp {
        // The phone's claim is ignored when the anchor is valid.
        server_time: t("2026-09-20T08:00:00Z"),
        elapsed_ms: 30 * 60 * 1000,
        rebooted: false,
        gps_time: Some(t("2026-09-22T08:31:00Z")),
        anchor: Some(sign_anchor(&key(), dev, seen)),
    };
    let r = rebuild(Some(&s), now, v).unwrap();
    assert_eq!(r.at, t("2026-09-22T08:30:00Z"));
    assert!(r.offline && !r.unverified);
    // GPS far from the rebuilt time: doubted, not replaced.
    let far = OfflineStamp { gps_time: Some(t("2026-09-22T09:30:00Z")), ..copy(&s) };
    assert!(rebuild(Some(&far), now, v).unwrap().unverified);
    // Rebooted: satellite time places it, and it is still doubted.
    let boot = OfflineStamp { rebooted: true, ..copy(&s) };
    let r = rebuild(Some(&boot), now, v).unwrap();
    assert_eq!((r.at, r.unverified), (t("2026-09-22T08:31:00Z"), true));
    // …but never before the last contact the server signed.
    let early = OfflineStamp {
        rebooted: true,
        gps_time: Some(t("2026-09-22T07:00:00Z")),
        ..copy(&s)
    };
    assert_eq!(rebuild(Some(&early), now, v).unwrap().at, seen);
    // The future and a stale queue are refused.
    let fut = OfflineStamp { elapsed_ms: 3 * 3600 * 1000, ..copy(&s) };
    // Coded with their figures, so the phone words them in its own language.
    let (status, c, vars) = code(rebuild(Some(&fut), now, v));
    assert_eq!((status, c), (400, "PUNCH_IN_FUTURE"));
    assert!(matches!(var(&vars, "at"), Var::At(_)), "{vars:?}");
    let old = OfflineStamp {
        anchor: Some(sign_anchor(&key(), dev, t("2026-09-01T08:00:00Z"))),
        ..copy(&s)
    };
    let (status, c, vars) = code(rebuild(Some(&old), now, v));
    assert_eq!((status, c), (400, "PUNCH_TOO_OLD"));
    assert_eq!(*var(&vars, "max_days"), Var::Int(MAX_AGE_DAYS));
    assert!(matches!(var(&vars, "at"), Var::At(_)), "{vars:?}");
    assert_eq!(rebuild(None, now, v).unwrap().at, now);
}

#[test]
fn a_forged_or_missing_anchor_is_dated_but_unverified() {
    let now = t("2026-09-22T10:00:00Z");
    let dev = device();
    let secret = key();
    let v = Verifier { secret: &secret, device: Some(dev) };
    let claimed = t("2026-09-22T06:00:00Z");
    let base = OfflineStamp {
        server_time: claimed,
        elapsed_ms: 60_000,
        rebooted: false,
        gps_time: None,
        anchor: None,
    };
    let r = rebuild(Some(&base), now, v).unwrap();
    assert_eq!(r.at, claimed + MINUTE);
    assert!(r.unverified, "no anchor: the phone's word only");

    let mut forged = sign_anchor(&key(), dev, claimed);
    forged.replace_range(forged.len() - 2.., "00");
    for bad in [
        forged,
        sign_anchor(&JwtSecret("other".into()), dev, claimed),
        sign_anchor(&key(), device(), claimed),
        format!("v1.{}.zz", claimed / 1_000_000),
        "garbage".to_string(),
    ] {
        let s = OfflineStamp { anchor: Some(bad.clone()), ..copy(&base) };
        assert!(rebuild(Some(&s), now, v).unwrap().unverified, "{bad}");
    }
    // A dashboard session has no device: never verified.
    let good = OfflineStamp { anchor: Some(sign_anchor(&key(), dev, claimed)), ..copy(&base) };
    let no_dev = Verifier { secret: &secret, device: None };
    assert!(rebuild(Some(&good), now, no_dev).unwrap().unverified);
    assert!(!rebuild(Some(&good), now, v).unwrap().unverified);
    // An anchor "signed" in the future is not the server's.
    let ahead = OfflineStamp {
        anchor: Some(sign_anchor(&key(), dev, now + HOUR)),
        elapsed_ms: 0,
        ..base
    };
    assert!(rebuild(Some(&ahead), now, v).unwrap().unverified);
}

#[test]
fn an_anchor_round_trips_only_for_its_device() {
    let dev = device();
    let at = t("2026-09-22T08:00:00.123Z");
    let a = sign_anchor(&key(), dev, at);
    assert_eq!(verify_anchor(&key(), dev, &a), Some(at));
    assert_eq!(verify_anchor(&key(), device(), &a), None);
    assert_eq!(verify_anchor(&JwtSecret("x".into()), dev, &a), None);
}

#[test]
fn an_anchor_is_a_version_a_time_and_a_tag() {
    let at = t("2026-09-22T08:00:00.123Z");
    let a = sign_anchor(&key(), 7, at);
    let parts: Vec<&str> = a.split('.').collect();
    assert_eq!(parts.len(), 3);
    assert_eq!(parts[0], "v1");
    assert_eq!(parts[1], format!("{}", at / 1_000_000));
    assert_eq!(parts[2].len(), 64);
    let read = parse_anchor(&a).unwrap();
    assert_eq!(read.ms as Moment, at / 1_000_000);
    assert_eq!(read.tag.len(), 32);
    for bad in ["", "v1", "v1.5", "v2.5.00", "v1.5.0", "v1.x.00", "v1.5.0g"] {
        assert!(parse_anchor(bad).is_none(), "{bad}");
    }
}

#[test]
fn a_signed_time_outweighs_the_claimed_one() {
    let now = t("2026-09-22T10:00:00Z");
    let s = OfflineStamp {
        server_time: t("2026-09-22T06:00:00Z"),
        elapsed_ms: 1000,
        rebooted: false,
        gps_time: None,
        anchor: None,
    };
    let claimed = rebuild_from(&s, None, now).unwrap();
    assert_eq!(claimed.at, t("2026-09-22T06:00:01Z"));
    assert!(claimed.unverified);
    let signed = rebuild_from(&s, Some(t("2026-09-22T08:00:00Z")), now).unwrap();
    assert_eq!(signed.at, t("2026-09-22T08:00:01Z"));
    assert!(!signed.unverified);
}

#[test]
fn a_gap_of_more_than_five_minutes_is_doubted_to_the_second() {
    let now = t("2026-09-22T10:00:00Z");
    let dev = device();
    let secret = key();
    let v = Verifier { secret: &secret, device: Some(dev) };
    let gps = |at: &str| OfflineStamp {
        server_time: t("2026-09-22T08:00:00Z"),
        elapsed_ms: 30 * 60 * 1000,
        rebooted: false,
        gps_time: Some(t(at)),
        anchor: Some(sign_anchor(&key(), dev, t("2026-09-22T08:00:00Z"))),
    };
    assert!(!rebuild(Some(&gps("2026-09-22T08:35:00Z")), now, v).unwrap().unverified);
    assert!(rebuild(Some(&gps("2026-09-22T08:35:30Z")), now, v).unwrap().unverified);
    assert!(!rebuild(Some(&gps("2026-09-22T08:25:00Z")), now, v).unwrap().unverified);
    assert!(rebuild(Some(&gps("2026-09-22T08:24:59Z")), now, v).unwrap().unverified);
}
