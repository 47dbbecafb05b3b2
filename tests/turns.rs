use historia::engine::{Game, Turn, START_LIFE};
use historia::loader::build_story;
use historia::story::Story;

fn row(fields: &[&str]) -> Vec<String> {
    fields.iter().map(|f| f.to_string()).collect()
}

fn story() -> Story {
    build_story(&vec![
        row(&["SITUACION", "INICIO", "start", "-10"]),
        row(&["OPCION", "B", "to B", ""]),
        row(&["OPCION", "NOWHERE", "to nowhere", ""]),
        row(&["SITUACION", "B", "middle", "-5"]),
        row(&["OPCION", "END", "to end", ""]),
        row(&["SITUACION", "END", "the end", "0"]),
    ])
    .unwrap()
}

fn situation_at(turn: Turn) -> usize {
    match turn {
        Turn::Choose { situation } | Turn::StoryEnded { situation } => situation,
        other => panic!("no situation in {:?}", other),
    }
}

#[test]
fn game_starts_at_entry_tag() {
    let g = Game::new();
    assert_eq!(g.life, 100);
    assert_eq!(START_LIFE, 100);
    assert_eq!(g.current_tag, "INICIO");
}

#[test]
fn invalid_selection_still_costs_life() {
    let story = story();
    let mut g = Game::new();
    let turn = g.turn(&story);
    assert!(matches!(turn, Turn::Choose { .. }));
    let s = story.situation(situation_at(turn));
    assert!(!g.apply_selection(s, 3));
    assert_eq!(g.life, 90);
    assert_eq!(g.current_tag, "INICIO");
    assert!(!g.apply_selection(s, 0));
    assert_eq!(g.life, 80);
    assert_eq!(g.current_tag, "INICIO");
}

#[test]
fn valid_selection_jumps() {
    let story = story();
    let mut g = Game::new();
    let s = story.situation(situation_at(g.turn(&story)));
    assert!(g.apply_selection(s, 1));
    assert_eq!(g.current_tag, "B");
    assert_eq!(g.life, 90);
}

#[test]
fn life_depletion_ends_game() {
    let story = story();
    let mut g = Game { life: 5, current_tag: "B".to_string() };
    let s = story.situation(situation_at(g.turn(&story)));
    assert!(g.apply_selection(s, 1));
    assert_eq!(g.life, 0);
    assert_eq!(g.turn(&story), Turn::GameOver);
}

#[test]
fn leaf_situation_ends_story() {
    let story = story();
    let g = Game { life: 50, current_tag: "END".to_string() };
    let turn = g.turn(&story);
    assert!(matches!(turn, Turn::StoryEnded { .. }));
    assert_eq!(story.situation(situation_at(turn)).text, "the end");
}

#[test]
fn missing_tag_exhausts_story() {
    let story = story();
    let mut g = Game::new();
    let s = story.situation(situation_at(g.turn(&story)));
    assert!(g.apply_selection(s, 2));
    assert_eq!(g.current_tag, "NOWHERE");
    assert_eq!(g.turn(&story), Turn::StoryExhausted);
}

#[test]
fn no_life_is_game_over_before_lookup() {
    let story = story();
    let g = Game { life: 0, current_tag: "NOWHERE".to_string() };
    assert_eq!(g.turn(&story), Turn::GameOver);
    let g = Game { life: -3, current_tag: "INICIO".to_string() };
    assert_eq!(g.turn(&story), Turn::GameOver);
}

#[test]
fn empty_story_is_exhausted_at_once() {
    let story = build_story(&vec![]).unwrap();
    assert_eq!(Game::new().turn(&story), Turn::StoryExhausted);
}

#[test]
fn life_saturates_at_the_top() {
    let story = build_story(&vec![
        row(&["SITUACION", "INICIO", "gift", "2147483647"]),
        row(&["OPCION", "INICIO", "again", ""]),
    ])
    .unwrap();
    let mut g = Game::new();
    let s = story.situation(situation_at(g.turn(&story)));
    assert!(g.apply_selection(s, 1));
    assert_eq!(g.life, i32::MAX);
    assert_eq!(g.current_tag, "INICIO");
}
