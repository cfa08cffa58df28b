use fancytexty::indexer::{keep_long, long_enough, phrases};
use fancytexty::Indexer;

const NOTE: &str = "Это #заметка о списке задач. Список задач важен.";

fn entry(text: &str, category: &str, count: u32) -> (String, String, u32) {
    (text.to_string(), category.to_string(), count)
}

fn strings(items: &[&str]) -> Vec<String> {
    items.iter().map(|s| s.to_string()).collect()
}

fn list_templates() -> Vec<(String, String, u32)> {
    vec![
        entry("- [ ] ", "template", 100),
        entry("- [ ] - ", "template", 100),
        entry("1. ", "template", 100),
    ]
}

#[test]
fn ingest_counts_tags() {
    let mut indexer = Indexer::new();
    indexer.index_content(NOTE);
    assert_eq!(indexer.tag_count("#заметка"), 1);
    assert_eq!(indexer.tag_count("заметка"), 0);
    assert_eq!(indexer.tag_count("#списке"), 0);
}

#[test]
fn ingest_counts_words_whatever_their_case() {
    let mut indexer = Indexer::new();
    indexer.index_content(NOTE);
    assert_eq!(indexer.word_count("задач"), 2);
    assert_eq!(indexer.word_count("список"), 1);
    assert_eq!(indexer.word_count("списке"), 1);
    assert_eq!(indexer.word_count("это"), 1);
    assert_eq!(indexer.word_count("заметка"), 1);
    assert_eq!(indexer.word_count("важен"), 1);
    assert_eq!(indexer.word_count("Список"), 0);
    assert_eq!(indexer.word_count("писок"), 0);
}

#[test]
fn ingest_counts_phrases_of_two_and_three_words() {
    let mut indexer = Indexer::new();
    indexer.index_content(NOTE);
    assert_eq!(indexer.phrase_count("список задач"), 1);
    assert_eq!(indexer.phrase_count("это #заметка"), 1);
    assert_eq!(indexer.phrase_count("списке задач."), 1);
    assert_eq!(indexer.phrase_count("задач. список"), 1);
    assert_eq!(indexer.phrase_count("задач важен."), 1);
    assert_eq!(indexer.phrase_count("списке задач. список"), 1);
    assert_eq!(indexer.phrase_count("задач. список задач"), 1);
    assert_eq!(indexer.phrase_count("список задач важен."), 1);
    // "о" is too short to stand in a phrase
    assert_eq!(indexer.phrase_count("#заметка о"), 0);
    assert_eq!(indexer.phrase_count("о списке"), 0);
    assert_eq!(indexer.phrase_count("это #заметка о"), 0);
    assert_eq!(indexer.phrase_count("о списке задач."), 0);
}

#[test]
fn repeated_phrase_is_counted_each_time() {
    let mut indexer = Indexer::new();
    indexer.index_content("список задач и список задач");
    assert_eq!(indexer.phrase_count("список задач"), 2);
    assert_eq!(indexer.word_count("список"), 2);
    assert_eq!(indexer.word_count("задач"), 2);
}

#[test]
fn tag_prefix_finds_the_tag() {
    let mut indexer = Indexer::new();
    indexer.index_content(NOTE);
    assert_eq!(indexer.find_completions("#зам", 5), vec![entry("#заметка", "tag", 1)]);
}

#[test]
fn word_prefix_ranks_templates_above_rare_words() {
    let mut indexer = Indexer::new();
    indexer.index_content(NOTE);
    let mut expected = list_templates();
    expected.push(entry("список", "word", 1));
    assert_eq!(indexer.find_completions("список", 5), expected);
}

#[test]
fn word_prefix_finds_every_word_that_begins_with_it() {
    let mut indexer = Indexer::new();
    indexer.index_content(NOTE);
    assert_eq!(
        indexer.find_completions("спис", 10),
        vec![
            entry("- [ ] ", "template", 100),
            entry("- [ ] - ", "template", 100),
            entry("1. ", "template", 100),
            entry("списке", "word", 1),
            entry("список", "word", 1),
        ]
    );
}

#[test]
fn ingesting_twice_doubles_every_count() {
    let mut once = Indexer::new();
    once.index_content(NOTE);
    let mut twice = Indexer::new();
    twice.index_content(NOTE);
    twice.index_content(NOTE);
    for word in ["задач", "список", "списке", "это", "заметка", "важен", "нет"] {
        assert_eq!(twice.word_count(word), 2 * once.word_count(word));
    }
    for tag in ["#заметка", "#нет"] {
        assert_eq!(twice.tag_count(tag), 2 * once.tag_count(tag));
    }
    for phrase in ["список задач", "это #заметка", "список задач важен.", "нет такой"] {
        assert_eq!(twice.phrase_count(phrase), 2 * once.phrase_count(phrase));
    }
    assert_eq!(twice.word_count("задач"), 4);
    assert_eq!(twice.find_completions("#зам", 5), vec![entry("#заметка", "tag", 2)]);
}

#[test]
fn clear_forgets_what_was_counted() {
    let mut indexer = Indexer::new();
    indexer.index_content(NOTE);
    indexer.clear();
    assert_eq!(indexer.word_count("задач"), 0);
    assert_eq!(indexer.tag_count("#заметка"), 0);
    assert_eq!(indexer.phrase_count("список задач"), 0);
    assert_eq!(indexer.find_completions("#зам", 5), vec![]);
    assert_eq!(indexer.find_completions("важ", 5), vec![]);
    assert_eq!(indexer.find_completions("список за", 5), vec![]);
}

#[test]
fn clear_keeps_the_catalogue() {
    let mut indexer = Indexer::new();
    indexer.index_content(NOTE);
    indexer.clear();
    assert_eq!(indexer.find_completions("список", 5), list_templates());
}

#[test]
fn counting_goes_on_after_a_clear() {
    let mut indexer = Indexer::new();
    indexer.index_content(NOTE);
    indexer.clear();
    indexer.index_content("задач");
    assert_eq!(indexer.word_count("задач"), 1);
}

#[test]
fn short_prefix_finds_nothing() {
    let mut indexer = Indexer::new();
    indexer.index_content(NOTE);
    indexer.index_content("aaa abc");
    assert_eq!(indexer.find_completions("", 5), vec![]);
    assert_eq!(indexer.find_completions("a", 5), vec![]);
    assert_eq!(indexer.find_completions("#", 5), vec![]);
    assert_eq!(indexer.find_completions(" ", 5), vec![]);
    // one character, two bytes
    assert_eq!(indexer.find_completions("з", 5), vec![]);
    assert_eq!(indexer.find_completions("с", 5), vec![]);
}

#[test]
fn two_characters_are_enough() {
    let mut indexer = Indexer::new();
    indexer.index_content("aaa abc");
    assert_eq!(
        indexer.find_completions("a", 5),
        vec![]
    );
    assert_eq!(
        indexer.find_completions("aa", 5),
        vec![entry("aaa", "word", 1)]
    );
    assert_eq!(
        indexer.find_completions("ab", 5),
        vec![entry("abc", "word", 1)]
    );
}

#[test]
fn tag_prefix_finds_no_words_or_phrases() {
    let mut indexer = Indexer::new();
    indexer.index_content("#work @work work #work work #workshop");
    let hash = indexer.find_completions("#wo", 10);
    assert_eq!(hash, vec![entry("#work", "tag", 2), entry("#workshop", "tag", 1)]);
    let at = indexer.find_completions("@wo", 10);
    assert_eq!(at, vec![entry("@work", "tag", 1)]);
    for found in [hash, at] {
        assert!(found.iter().all(|e| e.1 == "tag" || e.1 == "template"));
    }
}

#[test]
fn tag_prefix_is_lowercased_too() {
    let mut indexer = Indexer::new();
    indexer.index_content("#Заметка @Anna");
    assert_eq!(indexer.find_completions("#ЗАМ", 5), vec![entry("#заметка", "tag", 1)]);
    assert_eq!(indexer.find_completions("@An", 5), vec![entry("@anna", "tag", 1)]);
}

#[test]
fn tag_prefix_goes_before_a_space_in_it() {
    let mut indexer = Indexer::new();
    indexer.index_content("#tag next word");
    // begins with '#': the tags are searched, though the prefix holds a space
    assert_eq!(indexer.find_completions("#tag n", 10), vec![]);
    assert_eq!(indexer.phrase_count("#tag next"), 1);
}

#[test]
fn prefix_with_a_space_finds_phrases_only() {
    let mut indexer = Indexer::new();
    indexer.index_content(NOTE);
    let found = indexer.find_completions("список з", 10);
    assert_eq!(
        found,
        vec![entry("список задач", "phrase", 1), entry("список задач важен.", "phrase", 1)]
    );
    assert!(found.iter().all(|e| e.1 == "phrase" || e.1 == "template"));
}

#[test]
fn plain_prefix_finds_words_only() {
    let mut indexer = Indexer::new();
    indexer.index_content("#hello hello hello-world");
    let found = indexer.find_completions("he", 10);
    assert_eq!(found, vec![entry("hello", "word", 2), entry("hello-world", "word", 1)]);
}

#[test]
fn answer_is_in_descending_order_of_count() {
    let mut indexer = Indexer::new();
    indexer.index_content("aaa aab aab aac aac aac aad");
    assert_eq!(
        indexer.find_completions("aa", 10),
        vec![
            entry("aac", "word", 3),
            entry("aab", "word", 2),
            entry("aaa", "word", 1),
            entry("aad", "word", 1),
        ]
    );
}

#[test]
fn limit_cuts_the_least_frequent() {
    let mut indexer = Indexer::new();
    indexer.index_content("aaa aab aab aac aac aac aad");
    assert_eq!(
        indexer.find_completions("aa", 2),
        vec![entry("aac", "word", 3), entry("aab", "word", 2)]
    );
    assert_eq!(indexer.find_completions("aa", 1), vec![entry("aac", "word", 3)]);
    assert_eq!(
        indexer.find_completions("aa", 3),
        vec![entry("aac", "word", 3), entry("aab", "word", 2), entry("aaa", "word", 1)]
    );
}

#[test]
fn limit_of_zero_finds_nothing() {
    let mut indexer = Indexer::new();
    indexer.index_content(NOTE);
    assert_eq!(indexer.find_completions("список", 0), vec![]);
    assert_eq!(indexer.find_completions("#зам", 0), vec![]);
}

#[test]
fn large_limit_finds_everything() {
    let mut indexer = Indexer::new();
    indexer.index_content(NOTE);
    let mut expected = list_templates();
    expected.push(entry("список", "word", 1));
    assert_eq!(indexer.find_completions("список", usize::MAX), expected);
}

#[test]
fn frequent_word_ranks_above_templates() {
    let mut indexer = Indexer::new();
    let text = "список ".repeat(101);
    indexer.index_content(&text);
    assert_eq!(indexer.word_count("список"), 101);
    let found = indexer.find_completions("список", 2);
    assert_eq!(found, vec![entry("список", "word", 101), entry("- [ ] ", "template", 100)]);
}

#[test]
fn word_as_frequent_as_a_template_ranks_behind_it() {
    let mut indexer = Indexer::new();
    let text = "список ".repeat(100);
    indexer.index_content(&text);
    let found = indexer.find_completions("список", 10);
    let mut expected = list_templates();
    expected.push(entry("список", "word", 100));
    assert_eq!(found, expected);
}

#[test]
fn template_label_may_hold_the_prefix_anywhere() {
    let indexer = Indexer::new();
    assert_eq!(indexer.find_completions("исо", 5), list_templates());
    assert_eq!(indexer.find_completions("ок", 10), {
        let mut all = list_templates();
        all.push(entry("# ", "template", 100));
        all.push(entry("## ", "template", 100));
        all.push(entry("### ", "template", 100));
        all
    });
}

#[test]
fn catalogue_holds_every_group() {
    let indexer = Indexer::new();
    let one = |text: &str| vec![entry(text, "template", 100)];
    assert_eq!(indexer.find_completions("список", 9), list_templates());
    assert_eq!(
        indexer.find_completions("заголовок", 9),
        vec![
            entry("# ", "template", 100),
            entry("## ", "template", 100),
            entry("### ", "template", 100),
        ]
    );
    assert_eq!(indexer.find_completions("жирный", 9), one("**"));
    assert_eq!(indexer.find_completions("курсив", 9), one("*"));
    assert_eq!(
        indexer.find_completions("код", 9),
        vec![entry("`", "template", 100), entry("```", "template", 100)]
    );
    assert_eq!(indexer.find_completions("таблица", 9), one("| | |\n| --- | --- |\n| | |"));
    assert_eq!(indexer.find_completions("цитата", 9), one("> "));
    assert_eq!(indexer.find_completions("ссылка", 9), one("[текст](url)"));
    assert_eq!(indexer.find_completions("изображение", 9), one("![alt](url)"));
    assert_eq!(indexer.find_completions("задача", 9), one("- [ ] "));
    assert_eq!(
        indexer.find_completions("заметка", 9),
        vec![
            entry("> 💡 ", "template", 100),
            entry("> 📝 ", "template", 100),
            entry("> ⚠️ ", "template", 100),
        ]
    );
}

#[test]
fn groups_are_suggested_in_catalogue_order() {
    let indexer = Indexer::new();
    // "за" is held by "заголовок", "задача" and "заметка"
    assert_eq!(
        indexer.find_completions("за", 10),
        vec![
            entry("# ", "template", 100),
            entry("## ", "template", 100),
            entry("### ", "template", 100),
            entry("- [ ] ", "template", 100),
            entry("> 💡 ", "template", 100),
            entry("> 📝 ", "template", 100),
            entry("> ⚠️ ", "template", 100),
        ]
    );
}

#[test]
fn prefix_is_lowercased_before_the_search() {
    let mut indexer = Indexer::new();
    indexer.index_content("Hello HELLO hello");
    assert_eq!(indexer.word_count("hello"), 3);
    assert_eq!(indexer.find_completions("HEL", 5), vec![entry("hello", "word", 3)]);
    assert_eq!(indexer.find_completions("СПИСОК", 5), list_templates());
}

#[test]
fn keys_are_lowercase() {
    let mut indexer = Indexer::new();
    indexer.index_content("#Rust Сборка ЁЛКА Foo Bar");
    assert_eq!(indexer.tag_count("#rust"), 1);
    assert_eq!(indexer.tag_count("#Rust"), 0);
    assert_eq!(indexer.word_count("rust"), 1);
    assert_eq!(indexer.word_count("сборка"), 1);
    assert_eq!(indexer.word_count("ёлка"), 1);
    assert_eq!(indexer.phrase_count("foo bar"), 1);
    assert_eq!(indexer.phrase_count("Foo Bar"), 0);
}

#[test]
fn words_are_runs_of_three_or_more() {
    let mut indexer = Indexer::new();
    indexer.index_content("ab abc a_b x-1 hello,world ab.cd 42 2024 привет!мир");
    assert_eq!(indexer.word_count("ab"), 0);
    assert_eq!(indexer.word_count("abc"), 1);
    assert_eq!(indexer.word_count("a_b"), 1);
    assert_eq!(indexer.word_count("x-1"), 1);
    assert_eq!(indexer.word_count("hello"), 1);
    assert_eq!(indexer.word_count("world"), 1);
    assert_eq!(indexer.word_count("hello,world"), 0);
    assert_eq!(indexer.word_count("42"), 0);
    assert_eq!(indexer.word_count("2024"), 1);
    assert_eq!(indexer.word_count("привет"), 1);
    assert_eq!(indexer.word_count("мир"), 1);
}

#[test]
fn word_behind_a_tag_sign_is_counted_too() {
    let mut indexer = Indexer::new();
    indexer.index_content("#заметка @me");
    assert_eq!(indexer.tag_count("#заметка"), 1);
    assert_eq!(indexer.word_count("заметка"), 1);
    // a tag may be short, a word may not
    assert_eq!(indexer.tag_count("@me"), 1);
    assert_eq!(indexer.word_count("me"), 0);
}

#[test]
fn tags_stand_at_the_start_or_behind_whitespace() {
    let mut indexer = Indexer::new();
    indexer.index_content("#first mid#dle mail@host\t@tab\n#line (#paren) # alone #x");
    assert_eq!(indexer.tag_count("#first"), 1);
    assert_eq!(indexer.tag_count("#dle"), 0);
    assert_eq!(indexer.tag_count("@host"), 0);
    assert_eq!(indexer.tag_count("@tab"), 1);
    assert_eq!(indexer.tag_count("#line"), 1);
    assert_eq!(indexer.tag_count("#paren"), 0);
    assert_eq!(indexer.tag_count("#"), 0);
    assert_eq!(indexer.tag_count("#x"), 1);
}

#[test]
fn phrases_split_on_any_whitespace() {
    let mut indexer = Indexer::new();
    indexer.index_content("  alpha\tbeta\n\ngamma   delta ");
    assert_eq!(indexer.phrase_count("alpha beta"), 1);
    assert_eq!(indexer.phrase_count("beta gamma"), 1);
    assert_eq!(indexer.phrase_count("gamma delta"), 1);
    assert_eq!(indexer.phrase_count("alpha beta gamma"), 1);
    assert_eq!(indexer.phrase_count("beta gamma delta"), 1);
    assert_eq!(indexer.phrase_count("alpha\tbeta"), 0);
}

#[test]
fn empty_text_counts_nothing() {
    let mut indexer = Indexer::new();
    indexer.index_content("");
    indexer.index_content("   \n\t ");
    assert_eq!(indexer.find_completions("  ", 10), vec![]);
    assert_eq!(indexer.word_count(""), 0);
}

#[test]
fn default_indexer_has_no_catalogue() {
    let mut indexer = Indexer::default();
    assert_eq!(indexer.find_completions("список", 5), vec![]);
    indexer.index_content("список");
    assert_eq!(indexer.find_completions("список", 5), vec![entry("список", "word", 1)]);
}

#[test]
fn absorb_counts_given_tokens() {
    let mut indexer = Indexer::new();
    indexer.absorb(
        strings(&["#a", "#b", "#a"]),
        strings(&["one", "to", "two", "one"]),
        &strings(&["one", "to", "two", "one", "three"]),
    );
    assert_eq!(indexer.tag_count("#a"), 2);
    assert_eq!(indexer.tag_count("#b"), 1);
    assert_eq!(indexer.word_count("one"), 2);
    assert_eq!(indexer.word_count("two"), 1);
    assert_eq!(indexer.word_count("to"), 0);
    assert_eq!(indexer.phrase_count("two one"), 1);
    assert_eq!(indexer.phrase_count("one three"), 1);
    assert_eq!(indexer.phrase_count("two one three"), 1);
    assert_eq!(indexer.phrase_count("one to"), 0);
    assert_eq!(indexer.phrase_count("one to two"), 0);
    assert_eq!(indexer.suggest("#", 10), vec![entry("#a", "tag", 2), entry("#b", "tag", 1)]);
}

#[test]
fn suggest_answers_a_prefix_of_any_length() {
    let mut indexer = Indexer::new();
    indexer.index_content("alpha beta");
    assert_eq!(indexer.suggest("a", 10), vec![entry("alpha", "word", 1)]);
    assert_eq!(indexer.suggest("A", 10), vec![]);
    assert_eq!(indexer.suggest("alpha ", 10), vec![entry("alpha beta", "phrase", 1)]);
}

#[test]
fn phrases_pairs_then_triples() {
    assert_eq!(
        phrases(&strings(&["one", "two", "three", "iv", "five", "six"])),
        strings(&["one two", "one two three", "two three", "five six"])
    );
    assert_eq!(phrases(&strings(&["one"])), strings(&[]));
    assert_eq!(phrases(&strings(&[])), strings(&[]));
    assert_eq!(phrases(&strings(&["one", "two"])), strings(&["one two"]));
    assert_eq!(phrases(&strings(&["одна", "да", "три"])), strings(&[]));
}

#[test]
fn length_is_counted_in_characters() {
    assert!(long_enough("abc"));
    assert!(!long_enough("ab"));
    assert!(long_enough("мир"));
    // two characters, four bytes
    assert!(!long_enough("да"));
    assert!(!long_enough(""));
    assert_eq!(keep_long(strings(&["да", "нет", "ab", "abc", ""])), strings(&["нет", "abc"]));
}
