use auto_fuel_price::clock::captured_at;
use auto_fuel_price::config::{build_config, AppConfig, SCHEDULE_UTC_CRON, STATE_FILE_NAME};
use auto_fuel_price::feed::{
    build_response, current_payload, take_snapshot, BangchakOilItem, BangchakWire, FeedError,
};
use auto_fuel_price::line::{accepted, push_outcome, push_request};
use auto_fuel_price::price::Price;
use auto_fuel_price::snapshot::{FuelEntry, PriceSnapshot};
use auto_fuel_price::tick::{decide, restore, to_persist, Decision, StoredState};

fn price(baht: f64) -> Price {
    Price::from_bits(baht.to_bits()).unwrap()
}

fn wire(date: &str, remark: &str) -> BangchakWire {
    BangchakWire {
        oil_price_date: date.to_string(),
        oil_list: "[]".to_string(),
        oil_remark2: remark.to_string(),
    }
}

fn list(date: &str, yesterday: f64, today: f64) -> PriceSnapshot {
    PriceSnapshot {
        captured_at: "2026-06-21T18:00:00+07:00".to_string(),
        source_date: date.to_string(),
        effective_date: String::new(),
        effective_time: String::new(),
        entries: vec![FuelEntry {
            name: "Diesel".to_string(),
            price_yesterday: price(yesterday),
            price_today: price(today),
            price_tomorrow: price(today),
        }],
    }
}

fn stored(snapshot: PriceSnapshot, notified: bool) -> Option<StoredState> {
    Some(StoredState { snapshot, notified })
}

fn ready() -> AppConfig {
    build_config(None, Some("U1".to_string()), Some("secret".to_string()))
}

#[test]
fn settings_fall_back_and_empty_credentials_count_as_none() {
    let config = build_config(None, Some(String::new()), None);
    assert_eq!(config.state_file, STATE_FILE_NAME);
    assert_eq!(config.state_file, "last_fuel_prices.json");
    assert!(config.line_target.is_none());
    assert!(config.line_token.is_none());
    assert!(!config.has_credentials());
    let config = build_config(Some(String::new()), Some("U1".to_string()), Some("k".to_string()));
    assert_eq!(config.state_file, "");
    assert_eq!(config.line_target.as_deref(), Some("U1"));
    assert_eq!(config.line_token.as_deref(), Some("k"));
    assert!(config.has_credentials());
    assert!(!build_config(None, Some("U1".to_string()), None).has_credentials());
    assert!(!build_config(None, None, Some("k".to_string())).has_credentials());
}

#[test]
fn the_first_list_is_the_current_one() {
    let payload = current_payload(vec![wire("1", "a"), wire("2", "b"), wire("3", "c")]).unwrap();
    assert_eq!(payload.oil_price_date, "1");
    assert_eq!(payload.oil_remark2, "a");
    assert_eq!(current_payload(vec![]).unwrap_err(), FeedError::EmptyPayload);
}

#[test]
fn a_list_becomes_a_snapshot() {
    let items = vec![
        BangchakOilItem {
            oil_name: "Diesel".to_string(),
            price_yesterday: price(32.5),
            price_today: price(33.0),
            price_tomorrow: price(33.5),
        },
        BangchakOilItem {
            oil_name: "E20".to_string(),
            price_yesterday: price(29.0),
            price_today: price(28.0),
            price_tomorrow: price(27.0),
        },
    ];
    let payload = wire("21/06/2026", "Are effective on 19 June 2026 from 05:00 AM");
    let response = build_response(payload, items);
    let snapshot = take_snapshot("now".to_string(), response);
    assert_eq!(snapshot.captured_at, "now");
    assert_eq!(snapshot.source_date, "21/06/2026");
    assert_eq!(snapshot.effective_date, "19 มิถุนายน 2026");
    assert_eq!(snapshot.effective_time, "05:00");
    assert_eq!(snapshot.entries.len(), 2);
    assert_eq!(snapshot.entries[0].name, "Diesel");
    assert_eq!(snapshot.entries[1].name, "E20");
    assert_eq!(snapshot.entries[1].price_yesterday.to_bits(), 29.0f64.to_bits());
    assert_eq!(snapshot.entries[1].price_today.to_bits(), 28.0f64.to_bits());
    assert_eq!(snapshot.entries[1].price_tomorrow.to_bits(), 27.0f64.to_bits());
}

#[test]
fn news_is_pushed() {
    match decide(&ready(), false, list("21/06/2026", 32.5, 33.0), &None) {
        Decision::Push { token, request, snapshot } => {
            assert_eq!(token, "secret");
            assert_eq!(request.to, "U1");
            assert_eq!(request.messages[0].message_type, "text");
            assert_eq!(
                request.messages[0].text,
                "📰 แจ้งข่าวราคาน้ำมัน!!\n\n⛽ ▶ Diesel\nปรับเพิ่ม 0.50 บาท\nจากราคา 32.50 บาท เป็น 33.00 บาท"
            );
            assert_eq!(snapshot.source_date, "21/06/2026");
        }
        other => panic!("{:?}", other),
    }
}

#[test]
fn a_delivered_push_is_remembered_and_not_repeated() {
    let decision = decide(&ready(), false, list("21/06/2026", 32.5, 33.0), &None);
    let state = to_persist(decision, true);
    assert_eq!(state.as_ref().unwrap().snapshot.source_date, "21/06/2026");
    assert!(state.as_ref().unwrap().notified);
    let again = decide(&ready(), false, list("21/06/2026", 32.5, 34.0), &state);
    assert!(matches!(again, Decision::AlreadyNotified(_)));
    let kept = to_persist(again, false).unwrap();
    assert_eq!(kept.snapshot.entries[0].price_today.to_bits(), 34.0f64.to_bits());
    assert!(kept.notified);
    let next = decide(&ready(), false, list("22/06/2026", 32.5, 34.0), &Some(kept));
    assert!(matches!(next, Decision::Push { .. }));
}

#[test]
fn a_change_after_a_quiet_run_of_the_same_date_is_pushed_once() {
    let quiet = decide(&ready(), false, list("21/06/2026", 33.0, 33.0), &None);
    assert!(matches!(quiet, Decision::Unchanged(_)));
    let state = to_persist(quiet, false);
    assert!(!state.as_ref().unwrap().notified);
    let news = decide(&ready(), false, list("21/06/2026", 33.0, 34.0), &state);
    assert!(matches!(news, Decision::Push { .. }));
    let state = to_persist(news, true);
    assert!(state.as_ref().unwrap().notified);
    let again = decide(&ready(), false, list("21/06/2026", 33.0, 34.0), &state);
    assert!(matches!(again, Decision::AlreadyNotified(_)));
}

#[test]
fn a_quiet_run_keeps_what_is_known_of_its_date() {
    let state = stored(list("21/06/2026", 32.5, 33.0), true);
    let quiet = decide(&ready(), false, list("21/06/2026", 33.0, 33.0), &state);
    let state = to_persist(quiet, false);
    assert!(state.as_ref().unwrap().notified);
    let again = decide(&ready(), false, list("21/06/2026", 32.5, 33.0), &state);
    assert!(matches!(again, Decision::AlreadyNotified(_)));
    let other_day = decide(&ready(), false, list("22/06/2026", 33.0, 33.0), &state);
    assert!(!to_persist(other_day, false).unwrap().notified);
}

#[test]
fn news_of_a_stored_date_that_is_not_told_leaves_the_state_alone() {
    let state = stored(list("21/06/2026", 33.0, 33.0), false);
    let none = build_config(None, None, None);
    let missing = decide(&none, false, list("21/06/2026", 33.0, 34.0), &state);
    assert!(matches!(missing, Decision::CredentialsMissing));
    assert!(to_persist(missing, true).is_none());
    let preview = decide(&ready(), true, list("21/06/2026", 33.0, 34.0), &state);
    assert!(matches!(preview, Decision::Preview(_)));
    assert!(to_persist(preview, true).is_none());
    let push = decide(&ready(), false, list("21/06/2026", 33.0, 34.0), &state);
    assert!(to_persist(push, false).is_none());
}

#[test]
fn a_failed_push_is_tried_again() {
    let state = stored(list("20/06/2026", 1.0, 2.0), true);
    let decision = decide(&ready(), false, list("21/06/2026", 32.5, 33.0), &state);
    assert!(matches!(decision, Decision::Push { .. }));
    assert!(to_persist(decision, false).is_none());
    let again = decide(&ready(), false, list("21/06/2026", 32.5, 33.0), &state);
    assert!(matches!(again, Decision::Push { .. }));
}

#[test]
fn a_state_without_the_flag_is_notified_if_it_brings_changes() {
    assert!(restore(list("21/06/2026", 32.5, 33.0), None).notified);
    assert!(!restore(list("21/06/2026", 33.0, 33.0), None).notified);
    assert!(!restore(list("21/06/2026", 32.5, 33.0), Some(false)).notified);
    let state = restore(list("21/06/2026", 33.0, 33.0), Some(true));
    assert!(state.notified);
    assert_eq!(state.snapshot.source_date, "21/06/2026");
}

#[test]
fn without_credentials_nothing_is_remembered() {
    for config in [
        build_config(None, None, None),
        build_config(None, Some("U1".to_string()), None),
        build_config(None, None, Some("secret".to_string())),
    ] {
        for dry_run in [false, true] {
            let decision = decide(&config, dry_run, list("21/06/2026", 32.5, 33.0), &None);
            assert!(matches!(decision, Decision::CredentialsMissing));
            assert!(to_persist(decision, true).is_none());
        }
    }
}

#[test]
fn without_news_the_list_is_remembered() {
    let config = build_config(None, None, None);
    let decision = decide(&config, false, list("21/06/2026", 33.0, 33.0), &None);
    assert!(matches!(decision, Decision::Unchanged(_)));
    let kept = to_persist(decision, false).unwrap();
    assert_eq!(kept.snapshot.source_date, "21/06/2026");
    assert!(!kept.notified);
    let known = stored(list("21/06/2026", 33.0, 33.0), false);
    let decision = decide(&config, false, list("21/06/2026", 33.0, 33.0), &known);
    assert!(matches!(decision, Decision::Unchanged(_)));
}

#[test]
fn a_dry_run_shows_the_message_and_remembers_nothing() {
    let decision = decide(&ready(), true, list("21/06/2026", 33.0, 32.0), &None);
    match &decision {
        Decision::Preview(text) => assert!(text.contains("ปรับลด 1.00 บาท")),
        other => panic!("{:?}", other),
    }
    assert!(to_persist(decision, true).is_none());
}

#[test]
fn at_most_one_delivery_per_date() {
    let outcomes = [false, true, true, false, true];
    let mut state = None;
    let mut delivered = 0;
    for outcome in outcomes {
        let decision = decide(&ready(), false, list("21/06/2026", 32.5, 33.0), &state);
        if matches!(decision, Decision::Push { .. }) && outcome {
            delivered += 1;
        }
        if let Some(kept) = to_persist(decision, outcome) {
            state = Some(kept);
        }
    }
    assert_eq!(delivered, 1);
}

#[test]
fn a_push_request_carries_one_text_message() {
    let request = push_request("U1".to_string(), "hello".to_string());
    assert_eq!(request.to, "U1");
    assert_eq!(request.messages.len(), 1);
    assert_eq!(request.messages[0].message_type, "text");
    assert_eq!(request.messages[0].text, "hello");
}

#[test]
fn replies_are_judged_by_their_status() {
    assert_eq!(push_outcome(200, "200 OK", "{}"), Ok(()));
    assert_eq!(push_outcome(299, "299", ""), Ok(()));
    assert_eq!(
        push_outcome(401, "401 Unauthorized", "no"),
        Err("LINE push failed: 401 Unauthorized — no".to_string())
    );
    for status in 100..600u16 {
        assert_eq!(accepted(status), status / 100 == 2);
    }
    assert!(push_outcome(199, "199", "").is_err());
    assert!(push_outcome(300, "300 Multiple Choices", "").is_err());
}

#[test]
fn timestamps_are_in_bangkok_time() {
    assert_eq!(captured_at(0, 0).unwrap(), "1970-01-01T07:00:00+07:00");
    assert_eq!(captured_at(1_782_039_600, 0).unwrap(), "2026-06-21T18:00:00+07:00");
    assert_eq!(captured_at(1_782_046_800, 5_000_000).unwrap(), "2026-06-21T20:00:00.005+07:00");
    assert_eq!(captured_at(1_709_226_000, 1_000).unwrap(), "2024-03-01T00:00:00.000001+07:00");
    assert_eq!(captured_at(1_709_225_999, 1).unwrap(), "2024-02-29T23:59:59.000000001+07:00");
    assert_eq!(captured_at(253_402_275_599, 0).unwrap(), "9999-12-31T23:59:59+07:00");
    assert_eq!(captured_at(4_107_517_200, 0).unwrap(), "2100-03-01T00:00:00+07:00");
}

#[test]
fn instants_beyond_the_calendar_have_no_timestamp() {
    assert!(captured_at(i64::MAX, 0).is_none());
    assert!(captured_at(i64::MIN, 0).is_none());
    assert!(captured_at(0, 2_000_000_000).is_none());
    assert_eq!(captured_at(-1_577_923_200, 0).unwrap(), "1920-01-01T06:42:04+06:42");
}

#[test]
fn scheduled_runs_are_stamped_in_the_evening() {
    assert_eq!(SCHEDULE_UTC_CRON, "0 0 11,13 * * *");
    for day in (0..80_000i64).step_by(13) {
        let six = captured_at(day * 86_400 + 11 * 3600, 0).unwrap();
        let eight = captured_at(day * 86_400 + 13 * 3600, 0).unwrap();
        assert_eq!(&six[10..], "T18:00:00+07:00");
        assert_eq!(&eight[10..], "T20:00:00+07:00");
    }
}
