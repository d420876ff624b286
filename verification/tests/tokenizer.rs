use langbda::interner::Interner;
use langbda::syntax::Key;
use langbda::text::Text;
use langbda::tokenizer::{is_ascii_punctuation, SimpleTokenizer, Tokenizer};
use lasso::{Key as _, Spur, ThreadedRodeo};

struct GlobalKey(ThreadedRodeo);

impl Interner for GlobalKey {
    fn key_of(&self, _: Text) -> Option<Key> {
        unreachable!()
    }

    fn name_of(&self, _: Key) -> Option<Text> {
        unreachable!()
    }

    fn intern(&self, name: &str) -> Option<Key> {
        Some(self.0.get_or_intern(name).into_usize() as Key)
    }

    fn resolve(&self, key: Key) -> Option<String> {
        let spur = Spur::try_from_usize(key as usize)?;
        self.0.try_resolve(&spur).map(|s| s.to_string())
    }
}

fn split(input: &str) -> Option<(&str, &str)> {
    SimpleTokenizer::<GlobalKey>::split(input)
}

#[test]
fn test_simple_tokenizer() {
    let input = "hello world";
    let tokenizer = SimpleTokenizer::new(GlobalKey(ThreadedRodeo::default()));
    let tokens: Vec<(Key, &str)> = tokenizer.tokenize(input);
    assert_eq!(tokens[0].0, tokenizer.interner.intern("hello").unwrap());
}

#[test]
fn a_word_ends_at_white_space_and_at_punctuation() {
    assert_eq!(split("hello world"), Some(("hello", " world")));
    assert_eq!(split("Hello, world!"), Some(("Hello", ", world!")));
    assert_eq!(split("world!"), Some(("world", "!")));
    assert_eq!(split("apple"), Some(("apple", "")));
    assert_eq!(split("a\tb"), Some(("a", "\tb")));
    assert_eq!(split("a\u{3000}b"), Some(("a", "\u{3000}b")));
}

#[test]
fn leading_white_space_is_skipped() {
    assert_eq!(split("   hello world"), Some(("hello", " world")));
    assert_eq!(split(" \t\n\u{a0}x"), Some(("x", "")));
    assert_eq!(split(" , x"), Some((",", " x")));
}

#[test]
fn a_punctuation_character_is_a_word_of_its_own() {
    assert_eq!(split(", world!"), Some((",", " world!")));
    assert_eq!(split("!"), Some(("!", "")));
    assert_eq!(split("?!"), Some(("?", "!")));
    assert_eq!(split("_x"), Some(("_", "x")));
}

#[test]
fn a_text_of_white_space_has_no_word() {
    assert_eq!(split(""), None);
    assert_eq!(split("   "), None);
    assert_eq!(split("\n\t"), None);
}

#[test]
fn characters_beyond_ascii_are_letters() {
    assert_eq!(split("été, hiver"), Some(("été", ", hiver")));
    assert_eq!(split("«x»"), Some(("«x»", "")));
    assert_eq!(split("日本語 テキスト"), Some(("日本語", " テキスト")));
}

#[test]
fn punctuation_is_what_the_standard_library_calls_so() {
    for n in 0u32..0x250 {
        if let Some(c) = char::from_u32(n) {
            assert_eq!(is_ascii_punctuation(c), c.is_ascii_punctuation());
        }
    }
    assert!(!is_ascii_punctuation('\u{3001}'));
}

#[test]
fn the_tokenizer_offers_one_candidate_at_most() {
    let tokenizer = SimpleTokenizer::new(GlobalKey(ThreadedRodeo::default()));
    let hello = tokenizer.interner.intern("Hello").unwrap();
    assert_eq!(tokenizer.tokenize("Hello, world!"), vec![(hello, ", world!")]);
    assert_eq!(tokenizer.tokenize(" "), Vec::new());
    assert_eq!(tokenizer.interner.resolve(hello), Some("Hello".to_string()));
}
