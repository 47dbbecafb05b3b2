use historia::loader::{build_story, load_story, LoadError};
use historia::story::Story;

fn row(fields: &[&str]) -> Vec<String> {
    fields.iter().map(|f| f.to_string()).collect()
}

fn targets(story: &Story, tag: &str) -> Vec<String> {
    let i = story.position(&tag.to_string()).expect("tag present");
    story.situation(i).options.iter().map(|c| c.target.clone()).collect()
}

#[test]
fn choices_attach_to_preceding_situation() {
    let rows = vec![
        row(&["SITUACION", "A", "text", "0"]),
        row(&["OPCION", "B", "go B", "0"]),
        row(&["OPCION", "C", "go C", "0"]),
    ];
    let story = build_story(&rows).unwrap();
    assert_eq!(story.len(), 1);
    assert_eq!(targets(&story, "A"), vec!["B".to_string(), "C".to_string()]);
    let a = story.situation(story.position(&"A".to_string()).unwrap());
    assert_eq!(a.options[0].text, "go B");
    assert_eq!(a.options[1].text, "go C");
}

#[test]
fn choices_go_to_the_latest_situation() {
    let rows = vec![
        row(&["SITUACION", "A", "first", "0"]),
        row(&["OPCION", "X", "to X", ""]),
        row(&["SITUACION", "B", "second", "0"]),
        row(&["NOTA", "Z", "ignored", "0"]),
        row(&["OPCION", "Y", "to Y", ""]),
    ];
    let story = build_story(&rows).unwrap();
    assert_eq!(story.len(), 2);
    assert_eq!(targets(&story, "A"), vec!["X".to_string()]);
    assert_eq!(targets(&story, "B"), vec!["Y".to_string()]);
}

#[test]
fn orphan_choice_is_dropped() {
    let rows = vec![
        row(&["OPCION", "B", "go B", "0"]),
        row(&["SITUACION", "A", "text", "0"]),
    ];
    let story = build_story(&rows).unwrap();
    assert_eq!(story.len(), 1);
    assert_eq!(targets(&story, "A"), Vec::<String>::new());
    assert_eq!(story.position(&"B".to_string()), None);
}

#[test]
fn only_orphans_give_an_empty_story() {
    let rows = vec![row(&["OPCION", "B", "go B", "0"]), row(&["OTRO", "C", "x", "1"])];
    let story = build_story(&rows).unwrap();
    assert_eq!(story.len(), 0);
}

#[test]
fn empty_or_non_numeric_delta_is_zero() {
    let rows = vec![
        row(&["SITUACION", "A", "a", ""]),
        row(&["SITUACION", "B", "b", "mucho"]),
        row(&["SITUACION", "C", "c", " -15 "]),
        row(&["SITUACION", "D", "d", "99999999999"]),
    ];
    let story = build_story(&rows).unwrap();
    let delta = |t: &str| story.situation(story.position(&t.to_string()).unwrap()).life_delta;
    assert_eq!(delta("A"), 0);
    assert_eq!(delta("B"), 0);
    assert_eq!(delta("C"), -15);
    assert_eq!(delta("D"), 0);
}

#[test]
fn missing_delta_column_is_zero() {
    let story = build_story(&vec![row(&["SITUACION", "A", "a"])]).unwrap();
    assert_eq!(story.situation(0).life_delta, 0);
}

#[test]
fn fields_are_trimmed() {
    let rows = vec![
        row(&["  SITUACION ", " A ", "  hello  ", " 5 "]),
        row(&[" OPCION", " B ", " go ", ""]),
    ];
    let story = build_story(&rows).unwrap();
    let s = story.situation(story.position(&"A".to_string()).unwrap());
    assert_eq!(s.tag, "A");
    assert_eq!(s.text, "hello");
    assert_eq!(s.life_delta, 5);
    assert_eq!(s.options[0].target, "B");
    assert_eq!(s.options[0].text, "go");
}

#[test]
fn later_situation_replaces_earlier() {
    let rows = vec![
        row(&["SITUACION", "A", "old", "1"]),
        row(&["OPCION", "B", "to B", ""]),
        row(&["SITUACION", "A", "new", "2"]),
        row(&["OPCION", "C", "to C", ""]),
    ];
    let story = build_story(&rows).unwrap();
    assert_eq!(story.len(), 1);
    let s = story.situation(0);
    assert_eq!(s.text, "new");
    assert_eq!(s.life_delta, 2);
    assert_eq!(targets(&story, "A"), vec!["C".to_string()]);
}

#[test]
fn kind_is_case_sensitive() {
    let story = build_story(&vec![row(&["situacion", "A", "a", "0"])]).unwrap();
    assert_eq!(story.len(), 0);
}

#[test]
fn short_row_is_an_error() {
    let rows = vec![row(&["SITUACION", "A", "a", "0"]), row(&["OPCION", "B"])];
    assert_eq!(build_story(&rows).err(), Some(LoadError::MissingColumns { row: 1 }));
}

#[test]
fn text_is_split_on_semicolons() {
    let content = "SITUACION;INICIO;You wake up;0\nOPCION;CAVE;Enter the cave;0\nOPCION;ROAD;Take the road;0\nSITUACION;CAVE;Dark;-10\n";
    let story = load_story(content).unwrap();
    assert_eq!(story.len(), 2);
    assert_eq!(targets(&story, "INICIO"), vec!["CAVE".to_string(), "ROAD".to_string()]);
    let cave = story.situation(story.position(&"CAVE".to_string()).unwrap());
    assert_eq!(cave.text, "Dark");
    assert_eq!(cave.life_delta, -10);
}

#[test]
fn first_row_is_not_a_header() {
    let story = load_story("SITUACION;INICIO;start;0\n").unwrap();
    assert_eq!(story.len(), 1);
}

#[test]
fn unequal_rows_are_malformed() {
    let content = "SITUACION;A;a;0\nOPCION;B;b\n";
    assert_eq!(load_story(content).err(), Some(LoadError::Malformed));
}

#[test]
fn short_rows_in_text_are_missing_columns() {
    let content = "SITUACION;A\nOPCION;B\n";
    assert_eq!(load_story(content).err(), Some(LoadError::MissingColumns { row: 0 }));
}
