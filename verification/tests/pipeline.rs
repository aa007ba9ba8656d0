use gm_trivia::catalog::{build_catalog, BuildError, PlayerInfo, Statement};

fn stmt(subject: &str, predicate: &str, value: &str) -> Statement {
    Statement {
        subject: subject.to_string(),
        predicate: predicate.to_string(),
        value: value.to_string(),
        qualifier_label: None,
        qualifier_value: None,
    }
}

fn stmt_q(
    subject: &str,
    predicate: &str,
    value: &str,
    qualifier_label: Option<&str>,
    qualifier_value: Option<&str>,
) -> Statement {
    Statement {
        subject: subject.to_string(),
        predicate: predicate.to_string(),
        value: value.to_string(),
        qualifier_label: qualifier_label.map(|s| s.to_string()),
        qualifier_value: qualifier_value.map(|s| s.to_string()),
    }
}

fn sample_statements() -> Vec<Statement> {
    vec![
        stmt("Magnus Carlsen", "Elo rating", "2700"),
        stmt("Magnus Carlsen", "date of birth", "1990-11-30T00:00:00Z"),
        stmt_q(
            "Magnus Carlsen",
            "place of birth",
            "Tonsberg",
            Some("country"),
            Some("Norway"),
        ),
        stmt_q(
            "Magnus Carlsen",
            "title of chess person",
            "Grandmaster",
            Some("point in time"),
            Some("2004-04-26T00:00:00Z"),
        ),
        stmt("Fabiano Caruana", "Elo rating", "2844"),
        stmt("Magnus Carlsen", "Elo rating", "2882"),
        stmt("Magnus Carlsen", "Elo rating", "2650"),
        stmt("Magnus Carlsen", "country of citizenship", "Norway"),
        stmt("Magnus Carlsen", "Chess.com member ID", "MagnusCarlsen"),
        stmt("Magnus Carlsen", "Chess.com member ID", "MagnusCarlsen"),
        stmt("Magnus Carlsen", "Lichess username", "DrNykterstein"),
        stmt("Magnus Carlsen", "image", "carlsen.jpg"),
        stmt("Magnus Carlsen", "image", "carlsen2.jpg"),
    ]
}

fn expect_err(r: Result<Vec<PlayerInfo>, BuildError>) -> BuildError {
    match r {
        Err(e) => e,
        Ok(_) => panic!("expected a fatal fault"),
    }
}

fn assert_records_equal(a: &PlayerInfo, b: &PlayerInfo) {
    assert_eq!(a.name, b.name);
    assert_eq!(a.birth_date, b.birth_date);
    assert_eq!(a.birth_place, b.birth_place);
    assert_eq!(a.year_of_gm, b.year_of_gm);
    assert_eq!(a.chess_com_name, b.chess_com_name);
    assert_eq!(a.lichess_name, b.lichess_name);
    assert_eq!(a.peak_rating, b.peak_rating);
    assert_eq!(a.sport_country, b.sport_country);
    assert_eq!(a.citizenship_country, b.citizenship_country);
    assert_eq!(a.images, b.images);
}

#[test]
fn build_catalog_is_deterministic() {
    let first = build_catalog(&sample_statements()).unwrap();
    let second = build_catalog(&sample_statements()).unwrap();
    assert_eq!(first.len(), second.len());
    for (a, b) in first.iter().zip(second.iter()) {
        assert_records_equal(a, b);
    }
}

#[test]
fn peak_rating_is_max_of_ratings() {
    let stmts = vec![
        stmt("X", "Elo rating", "2700"),
        stmt("X", "Elo rating", "2882"),
        stmt("X", "Elo rating", "2650"),
    ];
    let recs = build_catalog(&stmts).unwrap();
    assert_eq!(recs.len(), 1);
    assert_eq!(recs[0].peak_rating, 2882);
}

#[test]
fn birth_date_is_formatted_day_month_year() {
    let stmts = vec![stmt("X", "date of birth", "1990-11-30T00:00:00Z")];
    let recs = build_catalog(&stmts).unwrap();
    assert_eq!(recs[0].birth_date, "30.11.1990");
}

#[test]
fn unparsable_birth_date_is_fatal() {
    let stmts = vec![
        stmt("X", "Elo rating", "2700"),
        stmt("X", "date of birth", "yesterday"),
    ];
    assert_eq!(expect_err(build_catalog(&stmts)), BuildError::DateUnparsable);
}

#[test]
fn grandmaster_title_without_qualifier_is_fatal() {
    let stmts = vec![stmt("X", "title of chess person", "Grandmaster")];
    assert_eq!(expect_err(build_catalog(&stmts)), BuildError::QualifierMissing);
}

#[test]
fn grandmaster_title_with_bad_date_is_fatal() {
    let stmts = vec![stmt_q(
        "X",
        "title of chess person",
        "Grandmaster",
        Some("point in time"),
        Some("not a date"),
    )];
    assert_eq!(expect_err(build_catalog(&stmts)), BuildError::DateUnparsable);
}

#[test]
fn other_title_without_qualifier_is_ignored() {
    let stmts = vec![stmt("X", "title of chess person", "Candidate Master")];
    let recs = build_catalog(&stmts).unwrap();
    assert_eq!(recs[0].year_of_gm, 0);
}

#[test]
fn unparsable_rating_is_fatal() {
    let stmts = vec![stmt("X", "Elo rating", "28a2")];
    assert_eq!(expect_err(build_catalog(&stmts)), BuildError::RatingUnparsable);
}

#[test]
fn year_of_gm_comes_from_qualifier_date() {
    let stmts = vec![stmt_q(
        "X",
        "title of chess person",
        "Grandmaster",
        Some("point in time"),
        Some("2013-04-01T00:00:00Z"),
    )];
    let recs = build_catalog(&stmts).unwrap();
    assert_eq!(recs[0].year_of_gm, 2013);
}

#[test]
fn birth_place_composes_with_qualifier() {
    let stmts = vec![stmt_q(
        "X",
        "place of birth",
        "Oslo",
        Some("country"),
        Some("Norway"),
    )];
    let recs = build_catalog(&stmts).unwrap();
    assert_eq!(recs[0].birth_place, "Oslo, Norway");
}

#[test]
fn birth_place_without_qualifier_is_plain() {
    let stmts = vec![stmt("X", "place of birth", "Oslo")];
    let recs = build_catalog(&stmts).unwrap();
    assert_eq!(recs[0].birth_place, "Oslo");
}

#[test]
fn birth_place_qualifier_label_without_value_is_fatal() {
    let stmts = vec![stmt_q("X", "place of birth", "Oslo", Some("country"), None)];
    assert_eq!(expect_err(build_catalog(&stmts)), BuildError::QualifierMissing);
}

#[test]
fn usernames_and_images_deduplicate() {
    let recs = build_catalog(&sample_statements()).unwrap();
    let carlsen = &recs[0];
    assert_eq!(carlsen.chess_com_name, vec!["MagnusCarlsen".to_string()]);
    assert_eq!(carlsen.lichess_name, vec!["DrNykterstein".to_string()]);
    assert_eq!(
        carlsen.images,
        vec!["carlsen.jpg".to_string(), "carlsen2.jpg".to_string()]
    );
}

#[test]
fn country_fields_are_last_write_wins() {
    let stmts = vec![
        stmt("X", "country of citizenship", "Norway"),
        stmt("X", "country for sport", "Sweden"),
        stmt("X", "country of citizenship", "Denmark"),
    ];
    let recs = build_catalog(&stmts).unwrap();
    assert_eq!(recs[0].citizenship_country, "Denmark");
    assert_eq!(recs[0].sport_country, "Sweden");
}

#[test]
fn unknown_predicates_leave_default_record() {
    let stmts = vec![stmt("X", "favourite opening", "Sicilian")];
    let recs = build_catalog(&stmts).unwrap();
    assert_eq!(recs.len(), 1);
    let r = &recs[0];
    assert_eq!(r.name, "X");
    assert_eq!(r.birth_date, "");
    assert_eq!(r.birth_place, "");
    assert_eq!(r.year_of_gm, 0);
    assert_eq!(r.peak_rating, 0);
    assert!(r.chess_com_name.is_empty());
    assert!(r.lichess_name.is_empty());
    assert!(r.images.is_empty());
    assert_eq!(r.sport_country, "");
    assert_eq!(r.citizenship_country, "");
}

#[test]
fn records_keep_first_occurrence_order() {
    let recs = build_catalog(&sample_statements()).unwrap();
    assert_eq!(recs.len(), 2);
    assert_eq!(recs[0].name, "Magnus Carlsen");
    assert_eq!(recs[1].name, "Fabiano Caruana");
}

#[test]
fn empty_dump_yields_empty_catalog() {
    let recs = build_catalog(&Vec::new()).unwrap();
    assert!(recs.is_empty());
}

#[test]
fn rating_with_plus_sign_parses() {
    let stmts = vec![stmt("X", "Elo rating", "+2700")];
    let recs = build_catalog(&stmts).unwrap();
    assert_eq!(recs[0].peak_rating, 2700);
}

#[test]
fn decimal_rendering_matches_std() {
    assert_eq!(gm_trivia::text::u32_to_dec(0), "0");
    assert_eq!(gm_trivia::text::u32_to_dec(2882), "2882");
    assert_eq!(gm_trivia::text::u32_to_dec(u32::MAX), u32::MAX.to_string());
    assert_eq!(gm_trivia::text::i32_to_dec(-99), "-99");
    assert_eq!(gm_trivia::text::i32_to_dec(i32::MIN), i32::MIN.to_string());
}

#[test]
fn rating_parse_matches_std() {
    assert_eq!(gm_trivia::text::parse_u32("2882"), Some(2882));
    assert_eq!(gm_trivia::text::parse_u32("+7"), Some(7));
    assert_eq!(gm_trivia::text::parse_u32("4294967295"), Some(u32::MAX));
    assert_eq!(gm_trivia::text::parse_u32("4294967296"), None);
    assert_eq!(gm_trivia::text::parse_u32(""), None);
    assert_eq!(gm_trivia::text::parse_u32("+"), None);
    assert_eq!(gm_trivia::text::parse_u32("-1"), None);
    assert_eq!(gm_trivia::text::parse_u32("12 "), None);
}

#[test]
fn blank_record_starts_empty() {
    let r = PlayerInfo::new();
    assert_eq!(r.name, "");
    assert_eq!(r.peak_rating, 0);
    assert_eq!(r.year_of_gm, 0);
    assert!(r.images.is_empty());
}
