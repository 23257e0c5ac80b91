use pods::random_name::{is_adjective, is_noun, RandomNames};

fn is_word(w: &str) -> bool {
    !w.is_empty()
        && !w.starts_with('-')
        && !w.ends_with('-')
        && w.chars().all(|c| c.is_ascii_lowercase() || c == '-')
}

#[test]
fn generated_names_are_adjective_and_noun() {
    let mut names = RandomNames::new();
    for _ in 0..200 {
        let name = names.generate_random_name();
        assert!(is_word(&name), "{name}");
        let ok = name
            .char_indices()
            .filter(|&(_, c)| c == '-')
            .any(|(i, _)| {
                is_word(&name[..i]) && is_word(&name[i + 1..]) && is_adjective(&name[..i]) && is_noun(&name[i + 1..])
            });
        assert!(ok, "{name}");
    }
}

#[test]
fn generated_names_vary() {
    let mut names = RandomNames::new();
    let first: Vec<String> = (0..20).map(|_| names.generate_random_name()).collect();
    assert!(first.iter().any(|n| n != &first[0]));
}

#[test]
fn word_lists() {
    assert!(!is_adjective("not-a-listed-word"));
    assert!(!is_noun("not-a-listed-word"));
    assert!(!is_adjective(""));
    assert!(is_adjective(names::ADJECTIVES[0]));
    assert!(is_noun(names::NOUNS[0]));
}
