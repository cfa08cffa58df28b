//! What holds of an index whatever it has ingested.

use crate::indexer::{
    is_phrase_prefix, is_tag_prefix, long_words, phrases_of, spaced_tokens, tag_tokens,
    word_tokens, IndexView, MIN_PREFIX, PHRASE, TAG, WORD,
};
use crate::ranking::{
    descending, keeps_most_frequent, lemma_answer_keeps, lemma_truncated_keeps_most_frequent,
    ranked, truncated, Completion,
};
use crate::tally::{lemma_record_all_again, lemma_record_all_count, lemma_record_all_valid};
use crate::templates::{lemma_template_entries_are_templates, template_entries, TEMPLATE};
use crate::text::lowercased;
use vstd::prelude::*;

verus! {

/// Every suggestion of `list` is of category `a` or of category `b`.
pub open spec fn only_categories(list: Seq<Completion>, a: Seq<char>, b: Seq<char>) -> bool {
    forall|i: int|
        0 <= i < list.len() ==> (#[trigger] list[i]).category == a || list[i].category == b
}

/// The four categories are four different texts.
pub proof fn lemma_categories_differ()
    ensures
        TEMPLATE@ != TAG@,
        TEMPLATE@ != WORD@,
        TEMPLATE@ != PHRASE@,
        TAG@ != WORD@,
        TAG@ != PHRASE@,
        WORD@ != PHRASE@,
{
    reveal_strlit("template");
    reveal_strlit("tag");
    reveal_strlit("word");
    reveal_strlit("phrase");
    assert(TEMPLATE@.len() == 8);
    assert(TAG@.len() == 3);
    assert(WORD@.len() == 4);
    assert(PHRASE@.len() == 6);
}

/// An index stays valid through every ingest and every reset, and a fresh one
/// is valid.
pub proof fn lemma_valid_is_kept(index: IndexView, content: Seq<char>)
    requires
        index.valid(),
    ensures
        index.ingest(content).valid(),
        index.reset().valid(),
        IndexView::initial().valid(),
{
    lemma_record_all_valid(index.tags, tag_tokens(content));
    lemma_record_all_valid(index.words, long_words(word_tokens(content)));
    lemma_record_all_valid(index.phrases, phrases_of(spaced_tokens(content)));
}

/// No count falls when a text is ingested.
pub proof fn lemma_counts_never_fall(index: IndexView, content: Seq<char>, key: Seq<char>)
    ensures
        index.ingest(content).words.count(key) >= index.words.count(key),
        index.ingest(content).tags.count(key) >= index.tags.count(key),
        index.ingest(content).phrases.count(key) >= index.phrases.count(key),
        index.ingest(content).templates == index.templates,
{
    lemma_record_all_count(index.tags, tag_tokens(content), key);
    lemma_record_all_count(index.words, long_words(word_tokens(content)), key);
    lemma_record_all_count(index.phrases, phrases_of(spaced_tokens(content)), key);
}

/// Nothing is deduplicated: ingesting a text a second time adds to every
/// count what the first time added, as long as the count still fits in `u32`.
pub proof fn lemma_ingest_again_adds_the_same(
    index: IndexView,
    content: Seq<char>,
    key: Seq<char>,
)
    ensures
        ({
            let once = index.ingest(content);
            let twice = once.ingest(content);
            &&& index.words.count(key) + 2 * (once.words.count(key) - index.words.count(key))
                <= u32::MAX ==> twice.words.count(key) - once.words.count(key)
                == once.words.count(key) - index.words.count(key)
            &&& index.tags.count(key) + 2 * (once.tags.count(key) - index.tags.count(key))
                <= u32::MAX ==> twice.tags.count(key) - once.tags.count(key) == once.tags.count(
                key,
            ) - index.tags.count(key)
            &&& index.phrases.count(key) + 2 * (once.phrases.count(key) - index.phrases.count(
                key,
            )) <= u32::MAX ==> twice.phrases.count(key) - once.phrases.count(key)
                == once.phrases.count(key) - index.phrases.count(key)
        }),
{
    lemma_record_all_again(index.tags, tag_tokens(content), key);
    lemma_record_all_again(index.words, long_words(word_tokens(content)), key);
    lemma_record_all_again(index.phrases, phrases_of(spaced_tokens(content)), key);
}

/// Ingesting the same text twice into a fresh index doubles every count that
/// ingesting it once produces, as long as the doubled count fits in `u32`.
pub proof fn lemma_ingest_twice_doubles(content: Seq<char>, key: Seq<char>)
    ensures
        ({
            let once = IndexView::initial().ingest(content);
            let twice = once.ingest(content);
            &&& 2 * once.words.count(key) <= u32::MAX ==> twice.words.count(key) == 2
                * once.words.count(key)
            &&& 2 * once.tags.count(key) <= u32::MAX ==> twice.tags.count(key) == 2
                * once.tags.count(key)
            &&& 2 * once.phrases.count(key) <= u32::MAX ==> twice.phrases.count(key) == 2
                * once.phrases.count(key)
        }),
{
    lemma_ingest_again_adds_the_same(IndexView::initial(), content, key);
}

/// After a reset a query is answered from the catalogue alone: every
/// suggestion is a template, none a tag, a word or a phrase, whatever was
/// ingested before.
pub proof fn lemma_reset_leaves_templates(index: IndexView, prefix: Seq<char>, limit: nat)
    ensures
        only_categories(index.reset().completions(prefix, limit), TEMPLATE@, TEMPLATE@),
        forall|i: int|
            0 <= i < index.reset().completions(prefix, limit).len() ==> {
                &&& (#[trigger] index.reset().completions(prefix, limit)[i]).category != TAG@
                &&& index.reset().completions(prefix, limit)[i].category != WORD@
                &&& index.reset().completions(prefix, limit)[i].category != PHRASE@
            },
        index.reset().completions(prefix, limit) == if prefix.len() < MIN_PREFIX {
            Seq::empty()
        } else {
            truncated(ranked(template_entries(index.templates, lowercased(prefix))), limit)
        },
{
    lemma_categories_differ();
    let lowered = lowercased(prefix);
    let cleared = index.reset();
    assert(cleared.counted(lowered) == Seq::<Completion>::empty()) by {
        reveal(Seq::filter);
    }
    assert(cleared.candidates(lowered) == template_entries(index.templates, lowered));
    lemma_template_entries_are_templates(index.templates, lowered);
    lemma_answer_keeps(
        cleared.candidates(lowered),
        limit,
        |c: Completion| c.category == TEMPLATE@,
    );
}

/// A prefix that asks for tags is answered with tags and templates only.
pub proof fn lemma_tag_prefix_finds_tags(index: IndexView, prefix: Seq<char>, limit: nat)
    requires
        is_tag_prefix(prefix),
    ensures
        only_categories(index.suggestions(prefix, limit), TEMPLATE@, TAG@),
        forall|i: int|
            0 <= i < index.suggestions(prefix, limit).len() ==> {
                &&& (#[trigger] index.suggestions(prefix, limit)[i]).category != WORD@
                &&& index.suggestions(prefix, limit)[i].category != PHRASE@
            },
{
    lemma_categories_differ();
    lemma_template_entries_are_templates(index.templates, prefix);
    lemma_answer_keeps(
        index.candidates(prefix),
        limit,
        |c: Completion| c.category == TEMPLATE@ || c.category == TAG@,
    );
}

/// A prefix that holds a space, and does not ask for tags, is answered with
/// phrases and templates only.
pub proof fn lemma_phrase_prefix_finds_phrases(index: IndexView, prefix: Seq<char>, limit: nat)
    requires
        is_phrase_prefix(prefix),
    ensures
        only_categories(index.suggestions(prefix, limit), TEMPLATE@, PHRASE@),
        forall|i: int|
            0 <= i < index.suggestions(prefix, limit).len() ==> {
                &&& (#[trigger] index.suggestions(prefix, limit)[i]).category != WORD@
                &&& index.suggestions(prefix, limit)[i].category != TAG@
            },
{
    lemma_categories_differ();
    lemma_template_entries_are_templates(index.templates, prefix);
    lemma_answer_keeps(
        index.candidates(prefix),
        limit,
        |c: Completion| c.category == TEMPLATE@ || c.category == PHRASE@,
    );
}

/// Any other prefix is answered with words and templates only.
pub proof fn lemma_word_prefix_finds_words(index: IndexView, prefix: Seq<char>, limit: nat)
    requires
        !is_tag_prefix(prefix),
        !is_phrase_prefix(prefix),
    ensures
        only_categories(index.suggestions(prefix, limit), TEMPLATE@, WORD@),
{
    lemma_template_entries_are_templates(index.templates, prefix);
    lemma_answer_keeps(
        index.candidates(prefix),
        limit,
        |c: Completion| c.category == TEMPLATE@ || c.category == WORD@,
    );
}

/// An answer is in descending order of count, has at most `limit`
/// suggestions, and leaves out no candidate that was seen more often than
/// one it holds.
pub proof fn lemma_answer_is_ranked(index: IndexView, prefix: Seq<char>, limit: nat)
    ensures
        descending(index.suggestions(prefix, limit)),
        index.suggestions(prefix, limit).len() <= limit,
        keeps_most_frequent(index.suggestions(prefix, limit), index.candidates(prefix)),
        descending(index.completions(prefix, limit)),
        index.completions(prefix, limit).len() <= limit,
{
    lemma_truncated_keeps_most_frequent(index.candidates(prefix), limit);
    lemma_truncated_keeps_most_frequent(index.candidates(lowercased(prefix)), limit);
}

} // verus!
