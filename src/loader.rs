//! Loading a story from semicolon separated rows.
use vstd::prelude::*;
use crate::story::{
    find_tag, lemma_story_map, lemma_story_map_update, situations_view, story_map, unique_tags,
    Choice, ChoiceView, Situation, SituationView, Story,
};
use crate::text::{life_delta_of, parse_life_delta, signed_literal, trim_text, trimmed};

verus! {

/// csv's `Error`, carried from `read_rows` only to be turned into
/// `LoadError::Malformed`.
#[verifier::external_type_specification]
#[verifier::external_body]
pub struct ExCsvError(csv::Error);

/// The fields of each record that csv reads from `content` with `;` as the
/// delimiter and no header row, or `None` where csv reports an error.
pub uninterp spec fn semicolon_rows(content: Seq<char>) -> Option<Seq<Seq<Seq<char>>>>;

/// Relies on csv's `Reader::records` (delimiter `;`, no header row): the
/// fields of every record, or the first error it meets.
#[verifier::external_body]
fn read_rows(content: &str) -> (r: Result<Vec<Vec<String>>, csv::Error>)
    ensures
        match r {
            Ok(rows) => semicolon_rows(content@) == Some(rows.deep_view()),
            Err(_) => semicolon_rows(content@) is None,
        },
{
    csv::ReaderBuilder::new()
        .delimiter(b';')
        .has_headers(false)
        .from_reader(content.as_bytes())
        .records()
        .map(|rec| rec.map(|rec| rec.iter().map(|f| f.to_string()).collect()))
        .collect()
}

/// Why a story could not be loaded.
#[derive(Debug, Clone, Copy, PartialEq, Eq, Structural)]
pub enum LoadError {
    /// The text is not well-formed semicolon separated rows.
    Malformed,
    /// The row at this index has fewer than three fields.
    MissingColumns { row: usize },
}

/// What a row declares, by its trimmed first field.
pub enum RowKind {
    Situation,
    Choice,
    Other,
}

/// Whether a row declares a situation.
pub open spec fn situation_row(row: Seq<Seq<char>>) -> bool {
    row_kind(row) is Situation
}

/// Whether a row declares a choice.
pub open spec fn choice_row(row: Seq<Seq<char>>) -> bool {
    row_kind(row) is Choice
}

pub open spec fn row_kind(row: Seq<Seq<char>>) -> RowKind {
    if trimmed(row[0]) == "SITUACION"@ {
        RowKind::Situation
    } else if trimmed(row[0]) == "OPCION"@ {
        RowKind::Choice
    } else {
        RowKind::Other
    }
}

/// A row has the kind, tag and text fields.
pub open spec fn complete_row(row: Seq<Seq<char>>) -> bool {
    row.len() >= 3
}

pub open spec fn complete_rows(rows: Seq<Seq<Seq<char>>>) -> bool {
    forall|i: int| 0 <= i < rows.len() ==> complete_row(#[trigger] rows[i])
}

/// The life delta of a row: from its fourth field, 0 where it has none.
pub open spec fn row_delta(row: Seq<Seq<char>>) -> int {
    if row.len() > 3 {
        life_delta_of(row[3])
    } else {
        0
    }
}

/// The situation that a row declares, before any choice is attached.
pub open spec fn situation_of(row: Seq<Seq<char>>) -> SituationView {
    SituationView {
        tag: trimmed(row[1]),
        text: trimmed(row[2]),
        life_delta: row_delta(row),
        options: Seq::empty(),
    }
}

/// The choice that a row declares.
pub open spec fn choice_of(row: Seq<Seq<char>>) -> ChoiceView {
    ChoiceView { target: trimmed(row[1]), text: trimmed(row[2]) }
}

/// The story so far, and the tag of the situation read last.
pub struct LoadState {
    pub story: Map<Seq<char>, SituationView>,
    pub cursor: Option<Seq<char>>,
}

pub open spec fn initial_load() -> LoadState {
    LoadState { story: Map::empty(), cursor: None }
}

/// `s` with `c` added at the end of its choices.
pub open spec fn with_choice(s: SituationView, c: ChoiceView) -> SituationView {
    SituationView { tag: s.tag, text: s.text, life_delta: s.life_delta, options: s.options.push(c) }
}

/// One row read: a situation enters the story (replacing one with its tag)
/// and becomes the cursor; a choice joins the situation at the cursor, if
/// there is one; anything else is passed over.
pub open spec fn load_row(st: LoadState, row: Seq<Seq<char>>) -> LoadState {
    match row_kind(row) {
        RowKind::Situation => LoadState {
            story: st.story.insert(trimmed(row[1]), situation_of(row)),
            cursor: Some(trimmed(row[1])),
        },
        RowKind::Choice => {
            if st.cursor is Some && st.story.contains_key(st.cursor->0) {
                let t = st.cursor->0;
                LoadState {
                    story: st.story.insert(t, with_choice(st.story[t], choice_of(row))),
                    cursor: st.cursor,
                }
            } else {
                st
            }
        },
        RowKind::Other => st,
    }
}

/// The rows read one after another from `st`.
pub open spec fn run_rows(st: LoadState, rows: Seq<Seq<Seq<char>>>) -> LoadState
    decreases rows.len(),
{
    if rows.len() == 0 {
        st
    } else {
        load_row(run_rows(st, rows.drop_last()), rows.last())
    }
}

/// The story that the rows declare.
pub open spec fn load_rows(rows: Seq<Seq<Seq<char>>>) -> Map<Seq<char>, SituationView> {
    run_rows(initial_load(), rows).story
}

/// A row whose fourth field is missing, empty once trimmed, or no integer
/// declares a life delta of 0.
pub proof fn lemma_default_life_delta(row: Seq<Seq<char>>)
    requires
        row.len() <= 3 || trimmed(row[3]).len() == 0 || (signed_literal(trimmed(row[3])) is None),
    ensures
        row_delta(row) == 0,
        situation_of(row).life_delta == 0,
{
}

/// The choices that `rows` declare, in order.
pub open spec fn choices_in(rows: Seq<Seq<Seq<char>>>) -> Seq<ChoiceView>
    decreases rows.len(),
{
    if rows.len() == 0 {
        Seq::empty()
    } else if row_kind(rows.last()) is Choice {
        choices_in(rows.drop_last()).push(choice_of(rows.last()))
    } else {
        choices_in(rows.drop_last())
    }
}

/// Reading `a` then `b` is reading `a + b`.
pub proof fn lemma_run_rows_append(st: LoadState, a: Seq<Seq<Seq<char>>>, b: Seq<Seq<Seq<char>>>)
    ensures
        run_rows(st, a + b) == run_rows(run_rows(st, a), b),
    decreases b.len(),
{
    if b.len() == 0 {
        assert(a + b =~= a);
    } else {
        assert((a + b).drop_last() =~= a + b.drop_last());
        assert((a + b).last() == b.last());
        lemma_run_rows_append(st, a, b.drop_last());
    }
}

/// The choices that follow a situation before the next situation are
/// attached to it, in the order they come: the situation that `sit` declares
/// ends up in the story with exactly the choices of `rest`.
pub proof fn lemma_choices_follow_situation(
    before: Seq<Seq<Seq<char>>>,
    sit: Seq<Seq<char>>,
    rest: Seq<Seq<Seq<char>>>,
)
    requires
        situation_row(sit),
        forall|i: int| 0 <= i < rest.len() ==> !situation_row(#[trigger] rest[i]),
    ensures
        load_rows(before.push(sit) + rest).contains_key(trimmed(sit[1])),
        load_rows(before.push(sit) + rest)[trimmed(sit[1])] == (SituationView {
            options: choices_in(rest),
            ..situation_of(sit)
        }),
    decreases rest.len(),
{
    let t = trimmed(sit[1]);
    let rows = before.push(sit) + rest;
    if rest.len() == 0 {
        assert(rows =~= before.push(sit));
        assert(rows.drop_last() =~= before);
        assert(situation_of(sit).options =~= choices_in(rest));
    } else {
        let shorter = rest.drop_last();
        assert forall|i: int| 0 <= i < shorter.len() implies !situation_row(#[trigger] shorter[i]) by {
            assert(shorter[i] == rest[i]);
        }
        lemma_choices_follow_situation(before, sit, shorter);
        assert(rows.drop_last() =~= before.push(sit) + shorter);
        assert(rows.last() == rest[rest.len() - 1]);
        lemma_cursor_after_situation(before, sit, shorter);
    }
}

/// After a situation and rows of no situation, the cursor is at its tag.
proof fn lemma_cursor_after_situation(
    before: Seq<Seq<Seq<char>>>,
    sit: Seq<Seq<char>>,
    rest: Seq<Seq<Seq<char>>>,
)
    requires
        situation_row(sit),
        forall|i: int| 0 <= i < rest.len() ==> !situation_row(#[trigger] rest[i]),
    ensures
        run_rows(initial_load(), before.push(sit) + rest).cursor == Some(trimmed(sit[1])),
    decreases rest.len(),
{
    let rows = before.push(sit) + rest;
    if rest.len() == 0 {
        assert(rows =~= before.push(sit));
        assert(rows.drop_last() =~= before);
    } else {
        let shorter = rest.drop_last();
        assert forall|i: int| 0 <= i < shorter.len() implies !situation_row(#[trigger] shorter[i]) by {
            assert(shorter[i] == rest[i]);
        }
        lemma_cursor_after_situation(before, sit, shorter);
        assert(rows.drop_last() =~= before.push(sit) + shorter);
        assert(rows.last() == rest[rest.len() - 1]);
    }
}

/// Rows without a situation leave the loading where it began.
proof fn lemma_no_situation_no_change(rows: Seq<Seq<Seq<char>>>)
    requires
        forall|i: int| 0 <= i < rows.len() ==> !situation_row(#[trigger] rows[i]),
    ensures
        run_rows(initial_load(), rows) == initial_load(),
    decreases rows.len(),
{
    if rows.len() > 0 {
        let shorter = rows.drop_last();
        assert forall|i: int| 0 <= i < shorter.len() implies !situation_row(#[trigger] shorter[i]) by {
            assert(shorter[i] == rows[i]);
        }
        lemma_no_situation_no_change(shorter);
        assert(!(row_kind(rows[rows.len() - 1]) is Situation));
    }
}

/// A choice with no situation before it is dropped: the story is the one
/// that the rows without it declare.
pub proof fn lemma_orphan_choice_dropped(rows: Seq<Seq<Seq<char>>>, i: int)
    requires
        0 <= i < rows.len(),
        choice_row(rows[i]),
        forall|j: int| 0 <= j < i ==> !situation_row(#[trigger] rows[j]),
    ensures
        load_rows(rows) == load_rows(rows.remove(i)),
{
    let head = rows.take(i + 1);
    let tail = rows.skip(i + 1);
    assert forall|j: int| 0 <= j < head.len() implies !situation_row(#[trigger] head[j]) by {
        assert(head[j] == rows[j]);
    }
    assert forall|j: int| 0 <= j < rows.take(i).len() implies !situation_row(#[trigger] rows.take(i)[j]) by {
        assert(rows.take(i)[j] == rows[j]);
    }
    lemma_no_situation_no_change(head);
    lemma_no_situation_no_change(rows.take(i));
    assert(rows =~= head + tail);
    assert(rows.remove(i) =~= rows.take(i) + tail);
    lemma_run_rows_append(initial_load(), head, tail);
    lemma_run_rows_append(initial_load(), rows.take(i), tail);
}

/// Builds the story from rows of fields: each situation keyed by its trimmed
/// tag (a later one replaces an earlier one), each choice attached, in order,
/// to the situation read last before it, choices before any situation and
/// rows of other kinds dropped. Fails on the first row with fewer than three
/// fields.
pub fn build_story(rows: &Vec<Vec<String>>) -> (r: Result<Story, LoadError>)
    ensures
        match r {
            Ok(story) => complete_rows(rows.deep_view()) && story.wf() && story@ == load_rows(
                rows.deep_view(),
            ),
            Err(LoadError::MissingColumns { row }) => row < rows.deep_view().len()
                && !complete_row(rows.deep_view()[row as int]) && complete_rows(
                rows.deep_view().take(row as int),
            ),
            Err(LoadError::Malformed) => false,
        },
{
    let ghost rv = rows.deep_view();
    let mut sits: Vec<Situation> = Vec::new();
    let mut cursor: Option<usize> = None;
    let situation_word = String::from_str("SITUACION");
    let choice_word = String::from_str("OPCION");
    let mut i: usize = 0;
    assert(rv.take(0) =~= Seq::<Seq<Seq<char>>>::empty());
    assert(situations_view(sits@) =~= Seq::<SituationView>::empty());
    while i < rows.len()
        invariant
            rv == rows.deep_view(),
            i <= rv.len(),
            situation_word@ == "SITUACION"@,
            choice_word@ == "OPCION"@,
            complete_rows(rv.take(i as int)),
            unique_tags(situations_view(sits@)),
            story_map(situations_view(sits@)) == run_rows(initial_load(), rv.take(i as int)).story,
            cursor is Some <==> run_rows(initial_load(), rv.take(i as int)).cursor is Some,
            cursor is Some ==> cursor->0 < sits@.len() && sits@[cursor->0 as int].tag@ == run_rows(
                initial_load(),
                rv.take(i as int),
            ).cursor->0,
        decreases rv.len() - i,
    {
        let ghost st = run_rows(initial_load(), rv.take(i as int));
        let ghost row = rv[i as int];
        let ghost before = situations_view(sits@);
        assert(rv.take(i + 1).drop_last() =~= rv.take(i as int));
        assert(rv.take(i + 1).last() == row);
        let fields = &rows[i];
        assert(fields.deep_view() == row);
        if fields.len() < 3 {
            return Err(LoadError::MissingColumns { row: i });
        }
        assert(complete_rows(rv.take(i + 1))) by {
            assert forall|k: int| 0 <= k < i + 1 implies complete_row(#[trigger] rv.take(i + 1)[k]) by {
                if k < i {
                    assert(rv.take(i + 1)[k] == rv.take(i as int)[k]);
                }
            }
        }
        assert(fields@[0]@ == row[0] && fields@[1]@ == row[1] && fields@[2]@ == row[2]);
        let kind = trim_text(fields[0].as_str());
        if kind == situation_word {
            let tag = trim_text(fields[1].as_str());
            let text = trim_text(fields[2].as_str());
            let life_delta = if fields.len() > 3 {
                assert(fields@[3]@ == row[3]);
                parse_life_delta(fields[3].as_str())
            } else {
                0
            };
            let sit = Situation { tag, text, life_delta, options: Vec::new() };
            assert(sit@ == situation_of(row)) by {
                assert(sit@.options =~= Seq::<ChoiceView>::empty());
            }
            match find_tag(&sits, &sit.tag) {
                Some(j) => {
                    proof {
                        lemma_story_map_update(before, j as int, sit@);
                    }
                    sits.set(j, sit);
                    assert(situations_view(sits@) =~= before.update(j as int, situation_of(row)));
                    cursor = Some(j);
                },
                None => {
                    let ghost n = sits@.len();
                    sits.push(sit);
                    assert(situations_view(sits@).drop_last() =~= before);
                    assert(unique_tags(situations_view(sits@))) by {
                        assert forall|a: int, b: int|
                            0 <= a < b < situations_view(sits@).len() implies situations_view(
                            sits@,
                        )[a].tag != situations_view(sits@)[b].tag by {
                            if b == n {
                                assert(situations_view(sits@)[a].tag == sits@[a].tag@);
                            } else {
                                assert(situations_view(sits@)[a] == before[a]);
                                assert(situations_view(sits@)[b] == before[b]);
                            }
                        }
                    }
                    cursor = Some(sits.len() - 1);
                },
            }
        } else if kind == choice_word {
            assert(row_kind(row) is Choice);
            if let Some(j) = cursor {
                let target = trim_text(fields[1].as_str());
                let text = trim_text(fields[2].as_str());
                let c = Choice { target, text };
                proof {
                    lemma_story_map(before);
                    assert(before[j as int] == sits@[j as int]@);
                    assert(story_map(before).contains_key(before[j as int].tag));
                    lemma_story_map_update(before, j as int, with_choice(before[j as int], c@));
                }
                let ghost old_options = sits@[j as int].options@;
                let ghost cv = c@;
                sits[j].options.push(c);
                assert(sits@[j as int].options@ == old_options.push(c));
                assert(sits@[j as int].options@.map_values(|c: Choice| c@) =~= old_options.map_values(
                    |c: Choice| c@,
                ).push(cv));
                assert(sits@[j as int]@ =~= with_choice(before[j as int], choice_of(row)));
                assert(situations_view(sits@) =~= before.update(
                    j as int,
                    with_choice(before[j as int], choice_of(row)),
                ));
            }
        } else {
            assert(row_kind(row) is Other);
        }
        i = i + 1;
    }
    assert(rv.take(i as int) =~= rv);
    Ok(Story::from_situations(sits))
}

/// Loads a story from semicolon separated text: fails with `Malformed`
/// where csv rejects the text, and otherwise builds the story from the
/// records it reads.
pub fn load_story(content: &str) -> (r: Result<Story, LoadError>)
    ensures
        semicolon_rows(content@) is None ==> r == Err::<Story, LoadError>(LoadError::Malformed),
        semicolon_rows(content@) is Some ==> match r {
            Ok(story) => complete_rows(semicolon_rows(content@)->0) && story.wf() && story@
                == load_rows(semicolon_rows(content@)->0),
            Err(LoadError::MissingColumns { row }) => row < semicolon_rows(content@)->0.len()
                && !complete_row(semicolon_rows(content@)->0[row as int]) && complete_rows(
                semicolon_rows(content@)->0.take(row as int),
            ),
            Err(LoadError::Malformed) => false,
        },
{
    match read_rows(content) {
        Ok(rows) => build_story(&rows),
        Err(_) => Err(LoadError::Malformed),
    }
}

} // verus!
