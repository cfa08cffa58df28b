//! The indexer: three counting tables filled from document text, a catalogue
//! of markdown snippets, and prefix queries over all four.

use crate::laws::{
    lemma_answer_is_ranked, lemma_phrase_prefix_finds_phrases, lemma_tag_prefix_finds_tags,
    only_categories,
};
use crate::ranking::{
    completions, descending, keeps_most_frequent, rank, ranked, truncated, Completion,
};
use crate::tally::{FrequencyTable, Tallies};
use crate::templates::{
    standard_groups, template_entries, Snippets, TemplateCatalogue, TEMPLATE,
};
use crate::text::{
    captured, captures, characters, contains_char, join_spaced, lowercase_each, lowercased,
    lowered_each, spaced, split_whitespace, texts, to_lowercase, whitespace_split,
};
use vstd::prelude::*;
use vstd::string::StrSliceExecFns;

verus! {

/// The category under which a tag is suggested.
pub const TAG: &'static str = "tag";

/// The category under which a word is suggested.
pub const WORD: &'static str = "word";

/// The category under which a phrase is suggested.
pub const PHRASE: &'static str = "phrase";

/// A tag: `#` or `@` and one or more word characters, at the start of the
/// text or behind whitespace. The first group holds the tag without what
/// stands before it.
pub const TAG_PATTERN: &'static str = r"(?:^|\s)([#@][a-zA-Zа-яА-ЯёЁ0-9_-]+)";

/// A word: three or more word characters in a row, as many as there are.
pub const WORD_PATTERN: &'static str = r"([a-zA-Zа-яА-ЯёЁ0-9_-]{3,})";

/// The fewest characters a query must have to be answered.
pub const MIN_PREFIX: usize = 2;

/// The fewest characters a word must have to be counted.
pub const MIN_WORD: usize = 3;

/// `word` is long enough to be counted.
pub open spec fn is_long(word: Seq<char>) -> bool {
    word.len() >= MIN_WORD
}

/// Those of `words` that are long enough to be counted, in order.
pub open spec fn long_words(words: Seq<Seq<char>>) -> Seq<Seq<char>> {
    words.filter(|word: Seq<char>| is_long(word))
}

/// The phrases that begin at word `i`: the pair with the next word, then the
/// triple with the next two, each only if all its words are long enough.
pub open spec fn phrases_at(words: Seq<Seq<char>>, i: int) -> Seq<Seq<char>> {
    if 0 <= i && i + 1 < words.len() && is_long(words[i]) && is_long(words[i + 1]) {
        if i + 2 < words.len() && is_long(words[i + 2]) {
            seq![
                spaced(words[i], words[i + 1]),
                spaced(spaced(words[i], words[i + 1]), words[i + 2]),
            ]
        } else {
            seq![spaced(words[i], words[i + 1])]
        }
    } else {
        Seq::empty()
    }
}

/// The phrases that begin at one of the first `n` words, in order.
pub open spec fn phrases_upto(words: Seq<Seq<char>>, n: int) -> Seq<Seq<char>>
    decreases n,
{
    if n <= 0 {
        Seq::empty()
    } else {
        phrases_upto(words, n - 1) + phrases_at(words, n - 1)
    }
}

/// All phrases of two and three neighbouring words.
pub open spec fn phrases_of(words: Seq<Seq<char>>) -> Seq<Seq<char>> {
    phrases_upto(words, words.len() as int)
}

/// The tags of a text, lowercased, in order of appearance.
pub open spec fn tag_tokens(content: Seq<char>) -> Seq<Seq<char>> {
    lowered_each(captured(TAG_PATTERN@, content))
}

/// The words of a text, lowercased, in order of appearance.
pub open spec fn word_tokens(content: Seq<char>) -> Seq<Seq<char>> {
    lowered_each(captured(WORD_PATTERN@, content))
}

/// What stands between the whitespace of a text, lowercased, in order.
pub open spec fn spaced_tokens(content: Seq<char>) -> Seq<Seq<char>> {
    lowered_each(whitespace_split(content))
}

/// `prefix` asks for tags: it begins with `#` or `@`.
pub open spec fn is_tag_prefix(prefix: Seq<char>) -> bool {
    prefix.len() > 0 && (prefix[0] == '@' || prefix[0] == '#')
}

/// `prefix` asks for phrases: it does not ask for tags and holds a space.
pub open spec fn is_phrase_prefix(prefix: Seq<char>) -> bool {
    !is_tag_prefix(prefix) && prefix.contains(' ')
}

/// What an indexer holds.
pub struct IndexView {
    pub words: Tallies,
    pub tags: Tallies,
    pub phrases: Tallies,
    pub templates: Seq<Snippets>,
}

impl IndexView {
    /// Nothing counted and no snippets.
    pub open spec fn blank() -> IndexView {
        IndexView {
            words: Tallies::empty(),
            tags: Tallies::empty(),
            phrases: Tallies::empty(),
            templates: Seq::empty(),
        }
    }

    /// Nothing counted, and the standard catalogue.
    pub open spec fn initial() -> IndexView {
        IndexView {
            words: Tallies::empty(),
            tags: Tallies::empty(),
            phrases: Tallies::empty(),
            templates: standard_groups(),
        }
    }

    /// Each of the three tables is valid.
    pub open spec fn valid(self) -> bool {
        self.words.valid() && self.tags.valid() && self.phrases.valid()
    }

    /// The index after the given tokens are counted: every tag, every word
    /// that is long enough, and every phrase of the spaced words.
    pub open spec fn absorb(
        self,
        tags: Seq<Seq<char>>,
        words: Seq<Seq<char>>,
        spaced_words: Seq<Seq<char>>,
    ) -> IndexView {
        IndexView {
            words: self.words.record_all(long_words(words)),
            tags: self.tags.record_all(tags),
            phrases: self.phrases.record_all(phrases_of(spaced_words)),
            templates: self.templates,
        }
    }

    /// The index after a text is ingested.
    pub open spec fn ingest(self, content: Seq<char>) -> IndexView {
        self.absorb(tag_tokens(content), word_tokens(content), spaced_tokens(content))
    }

    /// The index after a reset: nothing counted, the catalogue as it was.
    pub open spec fn reset(self) -> IndexView {
        IndexView {
            words: Tallies::empty(),
            tags: Tallies::empty(),
            phrases: Tallies::empty(),
            templates: self.templates,
        }
    }

    /// The entries of the one table that `prefix` asks for.
    pub open spec fn counted(self, prefix: Seq<char>) -> Seq<Completion> {
        if is_tag_prefix(prefix) {
            self.tags.entries(prefix, TAG@)
        } else if is_phrase_prefix(prefix) {
            self.phrases.entries(prefix, PHRASE@)
        } else {
            self.words.entries(prefix, WORD@)
        }
    }

    /// Everything that can be suggested for a lowercased `prefix`, before
    /// ranking: the snippets of the groups whose label holds the prefix, then
    /// the entries of the table that the prefix asks for.
    pub open spec fn candidates(self, prefix: Seq<char>) -> Seq<Completion> {
        template_entries(self.templates, prefix) + self.counted(prefix)
    }

    /// The answer to a lowercased `prefix`: the candidates, ranked, and at
    /// most `limit` of them.
    pub open spec fn suggestions(self, prefix: Seq<char>, limit: nat) -> Seq<Completion> {
        truncated(ranked(self.candidates(prefix)), limit)
    }

    /// The answer to a query: nothing for a prefix of fewer than two
    /// characters, else the suggestions for the lowercased prefix.
    pub open spec fn completions(self, prefix: Seq<char>, limit: nat) -> Seq<Completion> {
        if prefix.len() < MIN_PREFIX {
            Seq::empty()
        } else {
            self.suggestions(lowercased(prefix), limit)
        }
    }
}

/// Whether `word` is long enough to be counted.
pub fn long_enough(word: &str) -> (yes: bool)
    ensures
        yes == is_long(word@),
{
    word.unicode_len() >= MIN_WORD
}

/// Keeps the words that are long enough to be counted.
pub fn keep_long(words: Vec<String>) -> (kept: Vec<String>)
    ensures
        texts(kept@) == long_words(texts(words@)),
{
    let ghost all = texts(words@);
    let mut kept: Vec<String> = Vec::new();
    assert(long_words(all.take(0)) == Seq::<Seq<char>>::empty()) by {
        reveal(Seq::filter);
    }
    for word in it: words
        invariant
            texts(it.seq()) == all,
            texts(kept@) == long_words(all.take(it.index() as int)),
    {
        proof {
            let i = it.index() as int;
            reveal(Seq::filter);
            assert(all.take(i + 1).drop_last() == all.take(i));
            assert(all.take(i + 1).last() == word@);
        }
        if long_enough(word.as_str()) {
            let ghost before = kept@;
            kept.push(word);
            assert(texts(kept@) == texts(before).push(word@));
        }
    }
    assert(all.take(all.len() as int) == all);
    kept
}

/// The phrases of two and three neighbouring words: for each word in turn the
/// pair with the next word, then the triple with the next two, each only if
/// all its words are long enough.
pub fn phrases(words: &Vec<String>) -> (found: Vec<String>)
    ensures
        texts(found@) == phrases_of(texts(words@)),
{
    let ghost all = texts(words@);
    let n = words.len();
    let mut found: Vec<String> = Vec::new();
    let mut i: usize = 0;
    while i < n
        invariant
            i <= n,
            n == words.len(),
            all == texts(words@),
            texts(found@) == phrases_upto(all, i as int),
        decreases n - i,
    {
        let ghost before = found@;
        if i + 1 < n && long_enough(words[i].as_str()) && long_enough(words[i + 1].as_str()) {
            let pair = join_spaced(words[i].as_str(), words[i + 1].as_str());
            if i + 2 < n && long_enough(words[i + 2].as_str()) {
                let triple = join_spaced(pair.as_str(), words[i + 2].as_str());
                found.push(pair);
                found.push(triple);
                assert(texts(found@) == texts(before) + seq![pair@, triple@]);
            } else {
                found.push(pair);
                assert(texts(found@) == texts(before) + seq![pair@]);
            }
        } else {
            assert(texts(found@) == texts(before) + Seq::<Seq<char>>::empty());
        }
        i = i + 1;
    }
    found
}

/// Counts words, tags and phrases of documents and completes prefixes from
/// what it has counted and from a catalogue of markdown snippets.
pub struct Indexer {
    word_index: FrequencyTable,
    tag_index: FrequencyTable,
    phrase_index: FrequencyTable,
    templates: TemplateCatalogue,
}

impl View for Indexer {
    type V = IndexView;

    closed spec fn view(&self) -> IndexView {
        IndexView {
            words: self.word_index@,
            tags: self.tag_index@,
            phrases: self.phrase_index@,
            templates: self.templates@,
        }
    }
}

impl Default for Indexer {
    /// An indexer that has counted nothing and has no snippets.
    fn default() -> (indexer: Self)
        ensures
            indexer@ == IndexView::blank(),
    {
        Indexer {
            word_index: FrequencyTable::new(),
            tag_index: FrequencyTable::new(),
            phrase_index: FrequencyTable::new(),
            templates: TemplateCatalogue::new(),
        }
    }
}

impl Indexer {
    /// An indexer that has counted nothing and holds the standard catalogue.
    pub fn new() -> (indexer: Self)
        ensures
            indexer@ == IndexView::initial(),
            indexer@.valid(),
    {
        let mut indexer = Indexer {
            word_index: FrequencyTable::new(),
            tag_index: FrequencyTable::new(),
            phrase_index: FrequencyTable::new(),
            templates: TemplateCatalogue::new(),
        };
        indexer.init_templates();
        assert(indexer@.templates =~= standard_groups());
        indexer
    }

    /// Adds the groups of the standard catalogue.
    fn init_templates(&mut self)
        ensures
            final(self)@.templates == old(self)@.templates + standard_groups(),
            final(self)@.words == old(self)@.words,
            final(self)@.tags == old(self)@.tags,
            final(self)@.phrases == old(self)@.phrases,
    {
        // lists
        self.templates.add("список", vec!["- [ ] ", "- [ ] - ", "1. "]);
        // headings
        self.templates.add("заголовок", vec!["# ", "## ", "### "]);
        // emphasis
        self.templates.add("жирный", vec!["**"]);
        self.templates.add("курсив", vec!["*"]);
        self.templates.add("код", vec!["`", "```"]);
        // tables
        self.templates.add("таблица", vec!["| | |\n| --- | --- |\n| | |"]);
        // quotes
        self.templates.add("цитата", vec!["> "]);
        // links
        self.templates.add("ссылка", vec!["[текст](url)"]);
        // images
        self.templates.add("изображение", vec!["![alt](url)"]);
        // tasks
        self.templates.add("задача", vec!["- [ ] "]);
        // notes
        self.templates.add("заметка", vec!["> 💡 ", "> 📝 ", "> ⚠️ "]);
        assert(self@.templates =~~= old(self)@.templates + standard_groups());
    }

    /// Ingests a document: counts its tags, its words and its phrases of two
    /// and three neighbouring words, all lowercased.
    pub fn index_content(&mut self, content: &str)
        ensures
            final(self)@ == old(self)@.ingest(content@),
            final(self)@.valid(),
    {
        let tags = lowercase_each(&captures(TAG_PATTERN, content));
        let words = lowercase_each(&captures(WORD_PATTERN, content));
        let spaced_words = lowercase_each(&split_whitespace(content));
        self.absorb(tags, words, &spaced_words);
    }

    /// Counts the given lowercased tokens: every tag, every word that is long
    /// enough, and every phrase of the words that stood between whitespace.
    pub fn absorb(&mut self, tags: Vec<String>, words: Vec<String>, spaced_words: &Vec<String>)
        ensures
            final(self)@ == old(self)@.absorb(texts(tags@), texts(words@), texts(spaced_words@)),
            final(self)@.valid(),
    {
        self.tag_index.record_all(tags);
        self.word_index.record_all(keep_long(words));
        self.phrase_index.record_all(phrases(spaced_words));
    }

    /// Answers a query: the suggestions for `prefix`, most frequent first, at
    /// most `limit` of them; none for a prefix of fewer than two characters.
    pub fn find_completions(&self, prefix: &str, limit: usize) -> (found: Vec<
        (String, String, u32),
    >)
        ensures
            completions(found@) == self@.completions(prefix@, limit as nat),
            prefix@.len() < MIN_PREFIX ==> found@.len() == 0,
            found@.len() <= limit,
            descending(completions(found@)),
            prefix@.len() >= MIN_PREFIX ==> keeps_most_frequent(
                completions(found@),
                self@.candidates(lowercased(prefix@)),
            ),
            is_tag_prefix(lowercased(prefix@)) ==> only_categories(
                completions(found@),
                TEMPLATE@,
                TAG@,
            ),
            is_phrase_prefix(lowercased(prefix@)) ==> only_categories(
                completions(found@),
                TEMPLATE@,
                PHRASE@,
            ),
    {
        if prefix.unicode_len() < MIN_PREFIX {
            let none: Vec<(String, String, u32)> = Vec::new();
            assert(completions(none@) =~= Seq::empty());
            return none;
        }
        let lowered = to_lowercase(prefix);
        self.suggest(lowered.as_str(), limit)
    }

    /// Answers a query whose prefix is lowercased already, whatever its
    /// length.
    pub fn suggest(&self, prefix: &str, limit: usize) -> (found: Vec<(String, String, u32)>)
        ensures
            completions(found@) == self@.suggestions(prefix@, limit as nat),
            found@.len() <= limit,
            descending(completions(found@)),
            keeps_most_frequent(completions(found@), self@.candidates(prefix@)),
            is_tag_prefix(prefix@) ==> only_categories(completions(found@), TEMPLATE@, TAG@),
            is_phrase_prefix(prefix@) ==> only_categories(
                completions(found@),
                TEMPLATE@,
                PHRASE@,
            ),
    {
        proof {
            lemma_answer_is_ranked(self@, prefix@, limit as nat);
            if is_tag_prefix(prefix@) {
                lemma_tag_prefix_finds_tags(self@, prefix@, limit as nat);
            }
            if is_phrase_prefix(prefix@) {
                lemma_phrase_prefix_finds_phrases(self@, prefix@, limit as nat);
            }
        }
        let needle = characters(prefix);
        let mut candidates: Vec<(String, String, u32)> = Vec::new();
        assert(completions(candidates@) =~= Seq::empty());
        self.templates.add_completions(&needle, &mut candidates);
        if needle.len() > 0 && (needle[0] == '@' || needle[0] == '#') {
            self.tag_index.add_completions(&needle, TAG, &mut candidates);
        } else if contains_char(&needle, ' ') {
            self.phrase_index.add_completions(&needle, PHRASE, &mut candidates);
        } else {
            self.word_index.add_completions(&needle, WORD, &mut candidates);
        }
        assert(completions(candidates@) =~= self@.candidates(prefix@));
        let mut found = rank(candidates);
        let ghost all = completions(found@);
        found.truncate(limit);
        assert(completions(found@) =~= truncated(all, limit as nat));
        found
    }

    /// Forgets everything counted. The catalogue stays.
    pub fn clear(&mut self)
        ensures
            final(self)@ == old(self)@.reset(),
            final(self)@.valid(),
    {
        self.word_index.clear();
        self.tag_index.clear();
        self.phrase_index.clear();
    }

    /// How often `word` was counted as a word.
    pub fn word_count(&self, word: &str) -> (n: u32)
        ensures
            n == self@.words.count(word@),
    {
        self.word_index.count(word)
    }

    /// How often `tag` was counted as a tag.
    pub fn tag_count(&self, tag: &str) -> (n: u32)
        ensures
            n == self@.tags.count(tag@),
    {
        self.tag_index.count(tag)
    }

    /// How often `phrase` was counted as a phrase.
    pub fn phrase_count(&self, phrase: &str) -> (n: u32)
        ensures
            n == self@.phrases.count(phrase@),
    {
        self.phrase_index.count(phrase)
    }
}

} // verus!
