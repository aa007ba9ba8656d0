use gm_trivia::catalog::PlayerInfo;
use gm_trivia::engine::{
    get_answer, get_player_display, select_target, AnswerOutcome, Engine, RevealOutcome,
    CATEGORY_COUNT,
};

fn player(name: &str, rating: u32) -> PlayerInfo {
    let mut p = PlayerInfo::new();
    p.name = name.to_string();
    p.birth_date = "30.11.1990".to_string();
    p.birth_place = "Tonsberg, Norway".to_string();
    p.year_of_gm = 2004;
    p.chess_com_name = vec![format!("{}-online", name)];
    p.peak_rating = rating;
    p.citizenship_country = "Norway".to_string();
    p.images = vec![format!("{}.jpg", name)];
    p
}

fn three_players() -> Vec<PlayerInfo> {
    vec![
        player("Magnus Carlsen", 2882),
        player("Fabiano Caruana", 2844),
        player("Hikaru Nakamura", 2816),
    ]
}

#[test]
fn game_id_five_of_three_players_selects_ordinal_two() {
    let catalog = three_players();
    let target = select_target(&catalog, 5);
    assert_eq!(target.name, "Hikaru Nakamura");
    assert_eq!(get_answer(&catalog, 5), "Hikaru Nakamura");
}

#[test]
fn selection_is_deterministic_across_calls() {
    let catalog = three_players();
    for game_id in [0u32, 1, 2, 5, 1000, u32::MAX] {
        let first = select_target(&catalog, game_id).name.clone();
        for _ in 0..3 {
            assert_eq!(select_target(&catalog, game_id).name, first);
        }
    }
}

#[test]
fn display_lines_hold_the_profile_facts() {
    let catalog = three_players();
    let d = get_player_display(&catalog, 0, 7).unwrap();
    assert_eq!(d.name, "Magnus Carlsen");
    assert_eq!(d.image, "Magnus Carlsen.jpg");
    let pairs: Vec<(&str, String)> = d
        .lines
        .iter()
        .map(|l| (l.category.as_str(), l.answer.clone()))
        .collect();
    assert_eq!(
        pairs,
        vec![
            ("Peak rating", "2882".to_string()),
            ("Birth date", "30.11.1990".to_string()),
            ("Year of GM title", "2004".to_string()),
            ("Citizenship", "Norway".to_string()),
            ("Birth place", "Tonsberg, Norway".to_string()),
            ("Chess.com username", "Magnus Carlsen-online".to_string()),
        ]
    );
    assert!(d.lines.iter().all(|l| !l.animated));
}

#[test]
fn display_without_usernames_or_images_uses_placeholders() {
    let mut p = PlayerInfo::new();
    p.name = "X".to_string();
    let catalog = vec![p];
    let d = get_player_display(&catalog, 0, 7).unwrap();
    assert_eq!(d.lines[5].answer, "Unknown");
    assert_eq!(d.image, "");
}

#[test]
fn display_past_the_image_step_is_none() {
    let catalog = three_players();
    assert!(get_player_display(&catalog, 0, 8).is_none());
    assert!(get_player_display(&catalog, 0, 7).is_some());
}

#[test]
fn hint_levels_truncate_and_animate_the_newest_line() {
    let catalog = three_players();
    for hint in 1..=6u32 {
        let d = get_player_display(&catalog, 0, hint).unwrap();
        assert_eq!(d.lines.len(), hint as usize);
        for (i, line) in d.lines.iter().enumerate() {
            assert_eq!(line.animated, i as u32 + 1 == hint);
        }
    }
}

#[test]
fn start_then_reveals_grow_by_one_line_until_capped() {
    let catalog = three_players();
    let mut engine = Engine::new(catalog).unwrap();
    let game = 42;
    let first_view = engine.start(game);
    assert_eq!(first_view.len(), 1);

    let mut lengths = Vec::new();
    let mut image_attached = Vec::new();
    for _ in 0..CATEGORY_COUNT {
        match engine.reveal_next(game) {
            RevealOutcome::Hints { lines, image } => {
                lengths.push(lines.len());
                image_attached.push(image.is_some());
            }
            _ => panic!("a running game must keep revealing"),
        }
    }
    assert_eq!(lengths, vec![2, 3, 4, 5, 6, 6]);
    // attached exactly from the reveal whose counter reached the category total
    assert_eq!(image_attached, vec![false, false, false, false, true, true]);

    match engine.reveal_next(game) {
        RevealOutcome::Exhausted { profile } => {
            assert_eq!(profile.name, "Magnus Carlsen");
            assert_eq!(profile.lines.len(), 6);
            assert_eq!(profile.image, "Magnus Carlsen.jpg");
        }
        _ => panic!("hints past the image step must end the game"),
    }
}

#[test]
fn reveal_without_start_is_no_session() {
    let mut engine = Engine::new(three_players()).unwrap();
    assert!(matches!(engine.reveal_next(7), RevealOutcome::NoSession));
}

#[test]
fn sessions_are_independent_per_game_id() {
    let mut engine = Engine::new(three_players()).unwrap();
    engine.start(1);
    engine.start(2);
    match engine.reveal_next(1) {
        RevealOutcome::Hints { lines, .. } => assert_eq!(lines.len(), 2),
        _ => panic!("game 1 was started"),
    }
    match engine.reveal_next(1) {
        RevealOutcome::Hints { lines, .. } => assert_eq!(lines.len(), 3),
        _ => panic!("game 1 was started"),
    }
    match engine.reveal_next(2) {
        RevealOutcome::Hints { lines, .. } => assert_eq!(lines.len(), 2),
        _ => panic!("game 2 was started"),
    }
}

#[test]
fn restarting_a_game_reseeds_its_counter() {
    let mut engine = Engine::new(three_players()).unwrap();
    let game = 3;
    engine.start(game);
    for _ in 0..4 {
        engine.reveal_next(game);
    }
    engine.start(game);
    match engine.reveal_next(game) {
        RevealOutcome::Hints { lines, .. } => assert_eq!(lines.len(), 2),
        _ => panic!("a restarted game begins over"),
    }
}

#[test]
fn correct_answer_is_case_insensitive_and_discloses_profile() {
    let engine = Engine::new(three_players()).unwrap();
    match engine.answer(5, "hikaru NAKAMURA") {
        AnswerOutcome::Correct { profile } => {
            assert_eq!(profile.name, "Hikaru Nakamura");
            assert_eq!(profile.lines.len(), 6);
            assert_eq!(profile.image, "Hikaru Nakamura.jpg");
        }
        AnswerOutcome::Incorrect => panic!("a case-insensitive match must win"),
    }
}

#[test]
fn wrong_answer_is_the_incorrect_outcome() {
    let engine = Engine::new(three_players()).unwrap();
    assert!(matches!(
        engine.answer(5, "Magnus Carlsen"),
        AnswerOutcome::Incorrect
    ));
    assert!(matches!(engine.answer(5, ""), AnswerOutcome::Incorrect));
}

#[test]
fn resolve_discloses_the_full_profile() {
    let engine = Engine::new(three_players()).unwrap();
    let d = engine.resolve(1);
    assert_eq!(d.name, "Fabiano Caruana");
    assert_eq!(d.lines.len(), 6);
}

#[test]
fn short_predictions_are_refused() {
    let engine = Engine::new(three_players()).unwrap();
    assert_eq!(engine.predict(""), None);
    assert_eq!(engine.predict("ab"), None);
}

#[test]
fn prediction_matches_full_name_prefix() {
    let engine = Engine::new(three_players()).unwrap();
    assert_eq!(engine.predict("Mag"), Some("Magnus Carlsen".to_string()));
}

#[test]
fn prediction_is_case_insensitive() {
    let engine = Engine::new(three_players()).unwrap();
    assert_eq!(engine.predict("MAGNUS c"), Some("Magnus Carlsen".to_string()));
    assert_eq!(engine.predict("fabiano"), Some("Fabiano Caruana".to_string()));
}

#[test]
fn prediction_matches_name_pieces() {
    let engine = Engine::new(three_players()).unwrap();
    assert_eq!(
        engine.predict("naka"),
        Some("Hikaru Nakamura".to_string())
    );
}

#[test]
fn prediction_prefers_catalog_order() {
    let engine = Engine::new(three_players()).unwrap();
    // "Carlsen" and "Caruana" both match "car"; the first player wins
    assert_eq!(engine.predict("car"), Some("Magnus Carlsen".to_string()));
}

#[test]
fn prediction_without_match_is_none() {
    let engine = Engine::new(three_players()).unwrap();
    assert_eq!(engine.predict("Kasparov"), None);
}

#[test]
fn empty_catalog_builds_no_engine() {
    assert!(Engine::new(Vec::new()).is_none());
}
