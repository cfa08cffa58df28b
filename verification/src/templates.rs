//! The catalogue of markdown snippets that are offered by name.

use crate::ranking::{completions, Completion};
use crate::text::{contains_run, characters, occurs_in, texts};
use vstd::prelude::*;
use vstd::string::StringExecFns;

verus! {

/// The category under which a snippet of the catalogue is suggested.
pub const TEMPLATE: &'static str = "template";

/// The count that every snippet of the catalogue is suggested with.
pub const TEMPLATE_WEIGHT: u32 = 100;

/// What a group of the catalogue holds: its label and its snippets, in order.
#[verifier::ext_equal]
pub struct Snippets {
    pub label: Seq<char>,
    pub snippets: Seq<Seq<char>>,
}

/// The character sequences of a list of string slices.
pub open spec fn slices(strings: Seq<&'static str>) -> Seq<Seq<char>> {
    strings.map_values(|s: &'static str| s@)
}

/// The suggestion that stands for one snippet.
pub open spec fn template_of(snippet: Seq<char>) -> Completion {
    Completion { text: snippet, category: TEMPLATE@, count: TEMPLATE_WEIGHT }
}

/// The suggestions for the snippets of one group, in order.
pub open spec fn group_entries(snippets: Seq<Seq<char>>) -> Seq<Completion> {
    snippets.map_values(|snippet: Seq<char>| template_of(snippet))
}

/// The suggestions for `needle`: every snippet of every group whose label
/// holds `needle` somewhere, group by group.
pub open spec fn template_entries(groups: Seq<Snippets>, needle: Seq<char>) -> Seq<Completion>
    decreases groups.len(),
{
    if groups.len() == 0 {
        Seq::empty()
    } else if occurs_in(needle, groups.last().label) {
        template_entries(groups.drop_last(), needle) + group_entries(groups.last().snippets)
    } else {
        template_entries(groups.drop_last(), needle)
    }
}

/// The group with the given label and snippets.
pub open spec fn group(label: &'static str, snippets: Seq<&'static str>) -> Snippets {
    Snippets { label: label@, snippets: slices(snippets) }
}

/// The groups of the standard catalogue: lists, headings, emphasis, code,
/// tables, quotes, links, images, tasks and notes.
pub open spec fn standard_groups() -> Seq<Snippets> {
    seq![
        group("список", seq!["- [ ] ", "- [ ] - ", "1. "]),
        group("заголовок", seq!["# ", "## ", "### "]),
        group("жирный", seq!["**"]),
        group("курсив", seq!["*"]),
        group("код", seq!["`", "```"]),
        group("таблица", seq!["| | |\n| --- | --- |\n| | |"]),
        group("цитата", seq!["> "]),
        group("ссылка", seq!["[текст](url)"]),
        group("изображение", seq!["![alt](url)"]),
        group("задача", seq!["- [ ] "]),
        group("заметка", seq!["> 💡 ", "> 📝 ", "> ⚠️ "]),
    ]
}

/// Every suggestion of the catalogue is a template with the fixed weight.
pub proof fn lemma_template_entries_are_templates(groups: Seq<Snippets>, needle: Seq<char>)
    ensures
        forall|i: int|
            0 <= i < template_entries(groups, needle).len() ==> {
                &&& (#[trigger] template_entries(groups, needle)[i]).category == TEMPLATE@
                &&& template_entries(groups, needle)[i].count == TEMPLATE_WEIGHT
            },
    decreases groups.len(),
{
    if groups.len() > 0 {
        let rest = template_entries(groups.drop_last(), needle);
        let all = template_entries(groups, needle);
        lemma_template_entries_are_templates(groups.drop_last(), needle);
        assert forall|i: int| 0 <= i < all.len() implies {
            &&& (#[trigger] all[i]).category == TEMPLATE@
            &&& all[i].count == TEMPLATE_WEIGHT
        } by {
            if i < rest.len() {
                assert(all[i] == rest[i]);
            } else {
                assert(all[i] == group_entries(groups.last().snippets)[i - rest.len()]);
            }
        }
    }
}

/// A labelled group of snippets.
pub struct TemplateGroup {
    label: String,
    snippets: Vec<String>,
}

impl View for TemplateGroup {
    type V = Snippets;

    closed spec fn view(&self) -> Snippets {
        Snippets { label: self.label@, snippets: texts(self.snippets@) }
    }
}

/// Groups of snippets, in the order in which they were added.
pub struct TemplateCatalogue {
    groups: Vec<TemplateGroup>,
}

impl View for TemplateCatalogue {
    type V = Seq<Snippets>;

    closed spec fn view(&self) -> Seq<Snippets> {
        self.groups@.map_values(|group: TemplateGroup| group@)
    }
}

impl TemplateCatalogue {
    /// A catalogue without groups.
    pub fn new() -> (catalogue: Self)
        ensures
            catalogue@ == Seq::<Snippets>::empty(),
    {
        let catalogue = TemplateCatalogue { groups: Vec::new() };
        assert(catalogue@ =~= Seq::empty());
        catalogue
    }

    /// Adds a group at the end.
    pub fn add(&mut self, label: &'static str, snippets: Vec<&'static str>)
        ensures
            final(self)@ == old(self)@.push(group(label, snippets@)),
    {
        let mut owned: Vec<String> = Vec::new();
        let mut i: usize = 0;
        while i < snippets.len()
            invariant
                i <= snippets.len(),
                owned.len() == i,
                forall|j: int| 0 <= j < i ==> owned@[j]@ == (#[trigger] snippets@[j])@,
            decreases snippets.len() - i,
        {
            owned.push(String::from_str(snippets[i]));
            i = i + 1;
        }
        assert(texts(owned@) =~= slices(snippets@));
        let group = TemplateGroup { label: String::from_str(label), snippets: owned };
        let ghost before = self.groups@;
        self.groups.push(group);
        assert(self@ =~= old(self)@.push(group@));
    }

    /// The number of groups.
    pub fn len(&self) -> (n: usize)
        ensures
            n == self@.len(),
    {
        self.groups.len()
    }

    /// Appends to `found` a suggestion for every snippet of every group whose
    /// label holds `needle` somewhere, group by group.
    pub fn add_completions(&self, needle: &Vec<char>, found: &mut Vec<(String, String, u32)>)
        ensures
            completions(final(found)@) == completions(old(found)@) + template_entries(
                self@,
                needle@,
            ),
    {
        let ghost base = completions(found@);
        let mut i: usize = 0;
        while i < self.groups.len()
            invariant
                i <= self.groups.len(),
                self@.len() == self.groups.len(),
                completions(found@) == base + template_entries(self@.take(i as int), needle@),
            decreases self.groups.len() - i,
        {
            let group = &self.groups[i];
            let label = characters(group.label.as_str());
            proof {
                assert(self@.take(i + 1).drop_last() == self@.take(i as int));
                assert(self@.take(i + 1).last() == group@);
            }
            if contains_run(&label, needle) {
                let ghost start = completions(found@);
                let mut j: usize = 0;
                while j < group.snippets.len()
                    invariant
                        j <= group.snippets.len(),
                        group@.snippets.len() == group.snippets.len(),
                        group@.snippets == texts(group.snippets@),
                        completions(found@) == start + group_entries(
                            group@.snippets.take(j as int),
                        ),
                    decreases group.snippets.len() - j,
                {
                    let ghost before = found@;
                    found.push(
                        (group.snippets[j].clone(), String::from_str(TEMPLATE), TEMPLATE_WEIGHT),
                    );
                    assert(completions(found@) == completions(before).push(
                        template_of(group.snippets@[j as int]@),
                    ));
                    assert(group@.snippets.take(j + 1) == group@.snippets.take(j as int).push(
                        group.snippets@[j as int]@,
                    ));
                    j = j + 1;
                }
                assert(group@.snippets.take(group.snippets.len() as int) == group@.snippets);
            }
            i = i + 1;
        }
        assert(self@.take(self@.len() as int) == self@);
    }
}

} // verus!
