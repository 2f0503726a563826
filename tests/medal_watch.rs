use medal_watch::{
    build_tally, create_table, extract_awards, has_changed, parse_medal_class, rank, read_award, snapshot,
    top_entrants, AwardRecord, ConfigError, FeedError, JsonValue, MedalClass, MedalCount, Poller,
    PollerConfig, DEFAULT_POLL_INTERVAL_SECS, DEFAULT_TOP_N,
};

fn rec(class: MedalClass, who: &str) -> AwardRecord {
    AwardRecord::new(class, who.to_string())
}

fn names(v: &[&str]) -> Vec<String> {
    v.iter().map(|s| s.to_string()).collect()
}

fn counts(gold: usize, silver: usize, bronze: usize) -> MedalCount {
    MedalCount { gold, silver, bronze }
}

#[test]
fn test_dummy() {
    assert_eq!(1, 1);
}

#[test]
fn example_tally_rank_snapshot() {
    let records = vec![
        rec(MedalClass::Gold, "A"),
        rec(MedalClass::Gold, "B"),
        rec(MedalClass::Silver, "A"),
        rec(MedalClass::Gold, "A"),
    ];
    let tally = build_tally(&records);
    assert_eq!(tally.len(), 2);
    assert_eq!(tally[0].entrant, "A");
    assert_eq!(tally[0].counts, counts(2, 1, 0));
    assert_eq!(tally[1].entrant, "B");
    assert_eq!(tally[1].counts, counts(1, 0, 0));
    let board = rank(&tally);
    assert_eq!(board[0].entrant, "A");
    assert_eq!(board[1].entrant, "B");
    assert_eq!(top_entrants(&board, 2), names(&["A", "B"]));
    assert_eq!(snapshot(&records, 2), names(&["A", "B"]));
}

#[test]
fn tally_counts_every_record() {
    let records = vec![
        rec(MedalClass::Bronze, "X"),
        rec(MedalClass::Gold, "Y"),
        rec(MedalClass::Bronze, "X"),
        rec(MedalClass::Silver, "Z"),
        rec(MedalClass::Silver, "X"),
        rec(MedalClass::Bronze, "X"),
    ];
    let tally = build_tally(&records);
    let total: usize = tally.iter().map(|e| e.counts.gold + e.counts.silver + e.counts.bronze).sum();
    assert_eq!(total, records.len());
    assert_eq!(tally[0].entrant, "X");
    assert_eq!(tally[0].counts, counts(0, 1, 3));
    assert_eq!(tally[1].counts, counts(1, 0, 0));
    assert_eq!(tally[2].counts, counts(0, 1, 0));
}

#[test]
fn empty_records_give_empty_tally() {
    let tally = build_tally(&Vec::new());
    assert!(tally.is_empty());
    assert!(rank(&tally).is_empty());
    assert!(snapshot(&Vec::new(), 5).is_empty());
}

#[test]
fn ranking_twice_is_identical() {
    let records = vec![
        rec(MedalClass::Silver, "P"),
        rec(MedalClass::Silver, "Q"),
        rec(MedalClass::Gold, "R"),
        rec(MedalClass::Bronze, "P"),
    ];
    let tally = build_tally(&records);
    let a = rank(&tally);
    let b = rank(&tally);
    let an: Vec<&String> = a.iter().map(|e| &e.entrant).collect();
    let bn: Vec<&String> = b.iter().map(|e| &e.entrant).collect();
    assert_eq!(an, bn);
    assert_eq!(an, vec!["R", "P", "Q"]);
}

#[test]
fn ranking_is_ordered() {
    let records = vec![
        rec(MedalClass::Bronze, "A"),
        rec(MedalClass::Silver, "B"),
        rec(MedalClass::Gold, "C"),
        rec(MedalClass::Bronze, "D"),
        rec(MedalClass::Bronze, "D"),
        rec(MedalClass::Silver, "A"),
        rec(MedalClass::Gold, "B"),
    ];
    let board = rank(&build_tally(&records));
    for w in board.windows(2) {
        let (a, b) = (w[0].counts, w[1].counts);
        assert!((a.gold, a.silver, a.bronze) >= (b.gold, b.silver, b.bronze));
    }
    let order: Vec<&String> = board.iter().map(|e| &e.entrant).collect();
    assert_eq!(order, vec!["B", "C", "A", "D"]);
}

#[test]
fn ties_keep_first_seen_order() {
    let records = vec![
        rec(MedalClass::Gold, "Late"),
        rec(MedalClass::Gold, "Early"),
        rec(MedalClass::Silver, "Early"),
        rec(MedalClass::Silver, "Late"),
    ];
    assert_eq!(snapshot(&records, 5), names(&["Late", "Early"]));
}

#[test]
fn top_n_larger_than_board() {
    let records = vec![rec(MedalClass::Gold, "A"), rec(MedalClass::Silver, "B")];
    assert_eq!(snapshot(&records, 10), names(&["A", "B"]));
    assert_eq!(snapshot(&records, 1), names(&["A"]));
}

#[test]
fn change_detector_reports_order_change() {
    let prev = Some(names(&["A", "B", "C"]));
    assert!(has_changed(&prev, &names(&["A", "C", "B"])));
}

#[test]
fn change_detector_cases() {
    let prev = Some(names(&["A", "B"]));
    assert!(!has_changed(&prev, &names(&["A", "B"])));
    assert!(has_changed(&prev, &names(&["A"])));
    assert!(has_changed(&prev, &names(&["A", "B", "C"])));
    assert!(has_changed(&prev, &names(&["A", "D"])));
    assert!(has_changed(&None, &names(&["A", "B"])));
    assert!(has_changed(&None, &Vec::new()));
    assert!(!has_changed(&Some(Vec::new()), &Vec::new()));
}

#[test]
fn failed_fetch_keeps_baseline() {
    let mut poller = Poller::new(PollerConfig::new(2, 2).unwrap());
    let first = vec![rec(MedalClass::Gold, "A"), rec(MedalClass::Gold, "B")];
    assert_eq!(poller.run_cycle(Ok(first.clone())), Some(names(&["A", "B"])));
    let second = vec![
        rec(MedalClass::Gold, "A"),
        rec(MedalClass::Gold, "B"),
        rec(MedalClass::Gold, "B"),
    ];
    assert_eq!(poller.run_cycle(Ok(second.clone())), Some(names(&["B", "A"])));
    assert_eq!(poller.run_cycle(Err(FeedError::SourceUnavailable)), None);
    assert_eq!(poller.previous(), &Some(names(&["B", "A"])));
    assert_eq!(poller.run_cycle(Err(FeedError::MalformedRecord)), None);
    assert_eq!(poller.run_cycle(Ok(second)), None);
    assert_eq!(poller.run_cycle(Ok(first)), Some(names(&["A", "B"])));
    assert_eq!(poller.previous(), &Some(names(&["A", "B"])));
}

#[test]
fn unchanged_snapshot_still_becomes_baseline() {
    let mut poller = Poller::new(PollerConfig::standard());
    assert_eq!(poller.previous(), &None);
    let a = vec![rec(MedalClass::Gold, "A")];
    let b = vec![rec(MedalClass::Gold, "A"), rec(MedalClass::Bronze, "A")];
    assert!(poller.run_cycle(Ok(a)).is_some());
    assert_eq!(poller.run_cycle(Ok(b)), None);
    assert_eq!(poller.previous(), &Some(names(&["A"])));
}

#[test]
fn config_validation() {
    assert_eq!(PollerConfig::new(0, 2), Err(ConfigError::InvalidTopN));
    assert_eq!(PollerConfig::new(0, 0), Err(ConfigError::InvalidTopN));
    assert_eq!(PollerConfig::new(3, 0), Err(ConfigError::InvalidPollInterval));
    assert_eq!(PollerConfig::new(3, 7), Ok(PollerConfig { top_n: 3, poll_interval_secs: 7 }));
    let d = PollerConfig::standard();
    assert_eq!((d.top_n, d.poll_interval_secs), (DEFAULT_TOP_N, DEFAULT_POLL_INTERVAL_SECS));
    assert_eq!((DEFAULT_TOP_N, DEFAULT_POLL_INTERVAL_SECS), (5, 2));
    assert_eq!(Poller::new(d).config(), d);
}

#[test]
fn medal_class_names() {
    assert_eq!(parse_medal_class(&"GOLD".to_string()), Some(MedalClass::Gold));
    assert_eq!(parse_medal_class(&"SILVER".to_string()), Some(MedalClass::Silver));
    assert_eq!(parse_medal_class(&"BRONZE".to_string()), Some(MedalClass::Bronze));
    assert_eq!(parse_medal_class(&"gold".to_string()), None);
    assert_eq!(parse_medal_class(&"PLATINUM".to_string()), None);
    assert_eq!(MedalCount::zero().get(MedalClass::Silver), 0);
    assert_eq!(counts(1, 2, 3).get(MedalClass::Bronze), 3);
}

fn s(text: &str) -> JsonValue {
    JsonValue::Str(text.to_string())
}

fn obj(members: Vec<(&str, JsonValue)>) -> JsonValue {
    JsonValue::Object(members.into_iter().map(|(k, v)| (k.to_string(), v)).collect())
}

fn award_by_country(class: &str, country: &str) -> JsonValue {
    obj(vec![
        ("medalType", s(class)),
        ("participant", obj(vec![
            ("title", s("Some Athlete")),
            ("countryObject", obj(vec![("name", s(country))])),
        ])),
    ])
}

fn award_by_title(class: &str, title: &str) -> JsonValue {
    obj(vec![
        ("medalType", s(class)),
        ("participant", obj(vec![("title", s(title)), ("countryObject", JsonValue::Null)])),
    ])
}

fn feed(events: Vec<Vec<JsonValue>>) -> JsonValue {
    let events = events.into_iter().map(|a| obj(vec![("awards", JsonValue::Array(a))])).collect();
    obj(vec![(
        "pageProps",
        obj(vec![("gameDiscipline", obj(vec![("events", JsonValue::Array(events))]))]),
    )])
}

#[test]
fn extract_awards_from_feed() {
    let doc = feed(vec![
        vec![award_by_country("GOLD", "Kenya"), award_by_title("SILVER", "Team Relay")],
        vec![],
        vec![award_by_country("BRONZE", "Norway")],
    ]);
    let records = extract_awards(&doc).unwrap();
    assert_eq!(records.len(), 3);
    assert_eq!((records[0].medal_class, records[0].entrant.as_str()), (MedalClass::Gold, "Kenya"));
    assert_eq!(
        (records[1].medal_class, records[1].entrant.as_str()),
        (MedalClass::Silver, "Team Relay")
    );
    assert_eq!((records[2].medal_class, records[2].entrant.as_str()), (MedalClass::Bronze, "Norway"));
}

#[test]
fn extract_rejects_malformed_feed() {
    let unknown = feed(vec![vec![award_by_country("GOLD", "A"), award_by_country("TIN", "B")]]);
    assert_eq!(extract_awards(&unknown).unwrap_err(), FeedError::MalformedRecord);
    let empty_name = feed(vec![vec![award_by_country("GOLD", "")]]);
    assert_eq!(extract_awards(&empty_name).unwrap_err(), FeedError::MalformedRecord);
    let no_events = obj(vec![("pageProps", obj(vec![]))]);
    assert_eq!(extract_awards(&no_events).unwrap_err(), FeedError::MalformedRecord);
    let no_awards = obj(vec![(
        "pageProps",
        obj(vec![("gameDiscipline", obj(vec![("events", JsonValue::Array(vec![obj(vec![])]))]))]),
    )]);
    assert_eq!(extract_awards(&no_awards).unwrap_err(), FeedError::MalformedRecord);
    let no_participant = obj(vec![("medalType", s("GOLD"))]);
    assert_eq!(read_award(&no_participant).unwrap_err(), FeedError::MalformedRecord);
    assert!(extract_awards(&feed(vec![])).unwrap().is_empty());
}

#[test]
fn read_award_prefers_country_name() {
    let a = read_award(&award_by_country("SILVER", "Jamaica")).unwrap();
    assert_eq!((a.medal_class, a.entrant.as_str()), (MedalClass::Silver, "Jamaica"));
    let b = read_award(&award_by_title("BRONZE", "Mixed Team")).unwrap();
    assert_eq!((b.medal_class, b.entrant.as_str()), (MedalClass::Bronze, "Mixed Team"));
}

#[test]
fn create_table_rows() {
    let records = vec![
        rec(MedalClass::Bronze, "C"),
        rec(MedalClass::Gold, "A"),
        rec(MedalClass::Silver, "B"),
        rec(MedalClass::Gold, "A"),
        rec(MedalClass::Silver, "C"),
    ];
    let table = create_table(&records);
    assert_eq!(
        table,
        vec![
            ("A".to_string(), 2, 0, 0),
            ("C".to_string(), 0, 1, 1),
            ("B".to_string(), 0, 1, 0),
        ]
    );
    assert!(create_table(&Vec::new()).is_empty());
}
