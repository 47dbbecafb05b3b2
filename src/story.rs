//! The story: situations keyed by tag, each with the choices that lead on.
use vstd::prelude::*;

verus! {

/// A choice offered at a situation: the tag it leads to and its label.
pub struct Choice {
    pub target: String,
    pub text: String,
}

pub struct ChoiceView {
    pub target: Seq<char>,
    pub text: Seq<char>,
}

impl View for Choice {
    type V = ChoiceView;

    open spec fn view(&self) -> ChoiceView {
        ChoiceView { target: self.target@, text: self.text@ }
    }
}

/// A narrative node: its tag, its text, the change of life it brings, and
/// its choices in the order they were declared.
pub struct Situation {
    pub tag: String,
    pub text: String,
    pub life_delta: i32,
    pub options: Vec<Choice>,
}

pub struct SituationView {
    pub tag: Seq<char>,
    pub text: Seq<char>,
    pub life_delta: int,
    pub options: Seq<ChoiceView>,
}

impl View for Situation {
    type V = SituationView;

    open spec fn view(&self) -> SituationView {
        SituationView {
            tag: self.tag@,
            text: self.text@,
            life_delta: self.life_delta as int,
            options: self.options@.map_values(|c: Choice| c@),
        }
    }
}

/// The views of a sequence of situations.
pub open spec fn situations_view(v: Seq<Situation>) -> Seq<SituationView> {
    v.map_values(|s: Situation| s@)
}

/// No two situations of `s` share a tag.
pub open spec fn unique_tags(s: Seq<SituationView>) -> bool {
    forall|i: int, j: int| 0 <= i < j < s.len() ==> s[i].tag != s[j].tag
}

/// The situations of `s` keyed by tag.
pub open spec fn story_map(s: Seq<SituationView>) -> Map<Seq<char>, SituationView>
    decreases s.len(),
{
    if s.len() == 0 {
        Map::empty()
    } else {
        story_map(s.drop_last()).insert(s.last().tag, s.last())
    }
}

/// With unique tags, the map holds exactly the tags of `s`, each with its
/// situation.
pub proof fn lemma_story_map(s: Seq<SituationView>)
    requires
        unique_tags(s),
    ensures
        forall|i: int| 0 <= i < s.len() ==> #[trigger] story_map(s).contains_key(s[i].tag)
            && story_map(s)[s[i].tag] == s[i],
        forall|t: Seq<char>| #[trigger]
            story_map(s).contains_key(t) ==> exists|i: int| 0 <= i < s.len() && s[i].tag == t,
    decreases s.len(),
{
    if s.len() > 0 {
        let p = s.drop_last();
        lemma_story_map(p);
        assert forall|t: Seq<char>| #[trigger]
            story_map(s).contains_key(t) implies exists|i: int| 0 <= i < s.len() && s[i].tag == t by {
            if t != s.last().tag {
                assert(story_map(p).contains_key(t));
                let i = choose|i: int| 0 <= i < p.len() && p[i].tag == t;
                assert(s[i].tag == t);
            } else {
                assert(s[s.len() - 1].tag == t);
            }
        }
        assert forall|i: int| 0 <= i < s.len() implies #[trigger] story_map(s).contains_key(s[i].tag)
            && story_map(s)[s[i].tag] == s[i] by {
            if i < s.len() - 1 {
                assert(p[i] == s[i]);
                assert(story_map(p).contains_key(p[i].tag));
                assert(s[i].tag != s[s.len() - 1].tag);
            }
        }
    }
}

/// Replacing a situation by one with the same tag replaces its entry.
pub proof fn lemma_story_map_update(s: Seq<SituationView>, i: int, x: SituationView)
    requires
        unique_tags(s),
        0 <= i < s.len(),
        x.tag == s[i].tag,
    ensures
        unique_tags(s.update(i, x)),
        story_map(s.update(i, x)) == story_map(s).insert(x.tag, x),
    decreases s.len(),
{
    let u = s.update(i, x);
    assert(unique_tags(u)) by {
        assert forall|a: int, b: int| 0 <= a < b < u.len() implies u[a].tag != u[b].tag by {
            assert(u[a].tag == s[a].tag && u[b].tag == s[b].tag);
        }
    }
    lemma_story_map(s);
    lemma_story_map(u);
    assert(story_map(u) =~= story_map(s).insert(x.tag, x)) by {
        assert forall|t: Seq<char>| story_map(u).contains_key(t) <==> #[trigger] story_map(
            s,
        ).insert(x.tag, x).contains_key(t) by {
            if story_map(u).contains_key(t) {
                let k = choose|k: int| 0 <= k < u.len() && u[k].tag == t;
                assert(s[k].tag == t);
            }
            if story_map(s).contains_key(t) {
                let k = choose|k: int| 0 <= k < s.len() && s[k].tag == t;
                assert(u[k].tag == t);
            }
            if t == x.tag {
                assert(u[i].tag == t);
            }
        }
        assert forall|t: Seq<char>| #[trigger] story_map(u).contains_key(t) implies story_map(u)[t]
            == story_map(s).insert(x.tag, x)[t] by {
            let k = choose|k: int| 0 <= k < u.len() && u[k].tag == t;
            assert(story_map(u).contains_key(u[k].tag));
            if k != i {
                assert(s[k].tag == t);
                assert(story_map(s).contains_key(s[k].tag));
                assert(t != x.tag);
            }
        }
    }
}

/// A loaded story: situations with distinct tags.
pub struct Story {
    situations: Vec<Situation>,
}

impl View for Story {
    type V = Map<Seq<char>, SituationView>;

    closed spec fn view(&self) -> Map<Seq<char>, SituationView> {
        story_map(self.seq_view())
    }
}

impl Story {
    /// A story of the given situations.
    pub(crate) fn from_situations(situations: Vec<Situation>) -> (r: Story)
        requires
            unique_tags(situations_view(situations@)),
        ensures
            r.wf(),
            r.seq_view() == situations_view(situations@),
            r@ == story_map(situations_view(situations@)),
    {
        Story { situations }
    }

    pub closed spec fn seq_view(&self) -> Seq<SituationView> {
        situations_view(self.situations@)
    }

    /// The situations' tags are distinct.
    pub closed spec fn wf(&self) -> bool {
        unique_tags(self.seq_view())
    }

    pub closed spec fn spec_len(&self) -> nat {
        self.situations@.len()
    }

    /// Every situation of the story has a life delta within `i32`.
    pub proof fn lemma_deltas_in_range(&self)
        requires
            self.wf(),
        ensures
            forall|t: Seq<char>| #[trigger]
                self@.contains_key(t) ==> i32::MIN <= self@[t].life_delta <= i32::MAX,
    {
        lemma_story_map(self.seq_view());
        assert forall|t: Seq<char>| #[trigger]
            self@.contains_key(t) implies i32::MIN <= self@[t].life_delta <= i32::MAX by {
            let k = choose|k: int| 0 <= k < self.seq_view().len() && self.seq_view()[k].tag == t;
            assert(self.seq_view()[k] == self.situations@[k]@);
        }
    }

    /// The number of situations.
    pub fn len(&self) -> (r: usize)
        ensures
            r == self.spec_len(),
    {
        self.situations.len()
    }

    /// The situation at `i`, in the order the story keeps them.
    pub fn situation(&self, i: usize) -> (r: &Situation)
        requires
            self.wf(),
            i < self.spec_len(),
        ensures
            r@ == self.seq_view()[i as int],
            self@.contains_key(r.tag@),
            self@[r.tag@] == r@,
    {
        proof {
            lemma_story_map(self.seq_view());
            assert(self.seq_view()[i as int] == self.situations@[i as int]@);
            assert(story_map(self.seq_view()).contains_key(self.seq_view()[i as int].tag));
        }
        &self.situations[i]
    }

    /// Where the situation tagged `tag` stands, if the story has one.
    pub fn position(&self, tag: &String) -> (r: Option<usize>)
        requires
            self.wf(),
        ensures
            match r {
                Some(i) => i < self.spec_len() && self@.contains_key(tag@)
                    && self.seq_view()[i as int] == self@[tag@],
                None => !self@.contains_key(tag@),
            },
    {
        let r = find_tag(&self.situations, tag);
        proof {
            lemma_story_map(self.seq_view());
            match r {
                Some(i) => {
                    assert(self.seq_view()[i as int] == self.situations@[i as int]@);
                    assert(story_map(self.seq_view()).contains_key(self.seq_view()[i as int].tag));
                },
                None => {
                    if self@.contains_key(tag@) {
                        let k = choose|k: int|
                            0 <= k < self.seq_view().len() && self.seq_view()[k].tag == tag@;
                        assert(self.situations@[k].tag@ == tag@);
                    }
                },
            }
        }
        r
    }
}

/// The index of the situation of `s` tagged `tag`, if there is one.
pub(crate) fn find_tag(s: &Vec<Situation>, tag: &String) -> (r: Option<usize>)
    ensures
        match r {
            Some(i) => i < s@.len() && s@[i as int].tag@ == tag@,
            None => forall|k: int| 0 <= k < s@.len() ==> s@[k].tag@ != tag@,
        },
{
    let mut i: usize = 0;
    while i < s.len()
        invariant
            i <= s@.len(),
            forall|k: int| 0 <= k < i ==> s@[k].tag@ != tag@,
        decreases s@.len() - i,
    {
        if s[i].tag == *tag {
            return Some(i);
        }
        i = i + 1;
    }
    None
}

} // verus!
