use germinate::template::{distinct_placeholders, occurrences};
use germinate::{placeholders, substitute, Placeholder, Source};

fn texts(ps: &[Placeholder]) -> Vec<String> {
    ps.iter().map(|p| p.text.clone()).collect()
}

fn pairs(ps: &[(&str, &str)]) -> Vec<(String, String)> {
    ps.iter().map(|(k, v)| (k.to_string(), v.to_string())).collect()
}

#[test]
fn placeholder_fields() {
    let ps = placeholders("Hi %env:NAME%, welcome to %language:rust%!");
    assert_eq!(2, ps.len());
    assert_eq!("%env:NAME%", ps[0].text);
    assert_eq!("env", ps[0].tag);
    assert_eq!("NAME", ps[0].key);
    assert_eq!("%language:rust%", ps[1].text);
    assert_eq!("language", ps[1].tag);
    assert_eq!("rust", ps[1].key);
}

#[test]
fn placeholders_are_distinct_in_first_occurrence_order() {
    let t = "%b:2% %a:1% %b:2% %a:2% %a:1%";
    assert_eq!(5, occurrences(t).len());
    assert_eq!(vec!["%b:2%", "%a:1%", "%a:2%"], texts(&placeholders(t)));
    assert_eq!(texts(&placeholders(t)), texts(&distinct_placeholders(&occurrences(t))));
}

#[test]
fn no_placeholders_in_plain_text() {
    assert!(placeholders("").is_empty());
    assert!(placeholders("no placeholder at all").is_empty());
    assert!(placeholders("100% of it: yes%").is_empty());
}

#[test]
fn grammar_edge_cases() {
    // Tags are lower-case letters and digits only.
    assert!(placeholders("%ENV:X%").is_empty());
    assert!(placeholders("%my_tag:X%").is_empty());
    assert_eq!(vec!["%s3:bucket/key%"], texts(&placeholders("%s3:bucket/key%")));
    // Empty tags and keys do not match; unterminated placeholders are not matched.
    assert!(placeholders("%:x%").is_empty());
    assert!(placeholders("%a:%").is_empty());
    assert!(placeholders("%env:NAME").is_empty());
    // The key runs up to the next `%` and may hold `:`, spaces, newlines and any other character.
    let ps = placeholders("%url:http://host:80/a b%");
    assert_eq!("http://host:80/a b", ps[0].key);
    assert_eq!("line\nbreak", placeholders("%k:line\nbreak%")[0].key);
    assert_eq!("café ☕", placeholders("é %u:café ☕% é")[0].key);
    // Adjacent placeholders; a stray `%` before one.
    assert_eq!(vec!["%a:b%", "%c:d%"], texts(&placeholders("%a:b%%c:d%")));
    assert_eq!(vec!["%a:b%"], texts(&placeholders("%%a:b%")));
    // Scanning resumes after a match: the closing `%` is not reused.
    assert_eq!(vec!["%a:x%"], texts(&placeholders("%a:x%b:y%")));
    assert_eq!(vec!["%a:x%", "%b:y%"], texts(&placeholders("%a:x%b:y% %b:y%")));
}

/// A small deterministic generator of test strings.
struct Lcg(u64);

impl Lcg {
    fn next(&mut self) -> u64 {
        self.0 = self.0.wrapping_mul(6364136223846793005).wrapping_add(1442695040888963407);
        self.0 >> 33
    }
}

#[test]
fn scanner_agrees_with_regular_expression() {
    let pattern = regex::Regex::new(r"(%([a-z0-9]+):([^%]+)%)").unwrap();
    let alphabet = ['%', '%', ':', ':', 'a', 'b', 'z', '0', '9', 'Q', ' ', '_', '\n', 'é'];
    let mut rng = Lcg(7);
    for _ in 0..3000 {
        let len = (rng.next() % 24) as usize;
        let s: String = (0..len)
            .map(|_| alphabet[(rng.next() % alphabet.len() as u64) as usize])
            .collect();
        let expected: Vec<(String, String, String)> = pattern
            .captures_iter(&s)
            .map(|c| (c[1].to_string(), c[2].to_string(), c[3].to_string()))
            .collect();
        let found: Vec<(String, String, String)> = occurrences(&s)
            .into_iter()
            .map(|p| (p.text, p.tag, p.key))
            .collect();
        assert_eq!(expected, found, "template {:?}", s);
    }
}

#[test]
fn substitute_replaces_every_occurrence() {
    let out = substitute("%a:1% x %a:1% y %b:2%", &pairs(&[("%a:1%", "A"), ("%b:2%", "B")]));
    assert_eq!("A x A y B", out);
}

#[test]
fn substitute_inserts_values_verbatim() {
    // A value that looks like a placeholder is not expanded again.
    let out = substitute("%a:x% %b:y%", &pairs(&[("%a:x%", "%b:y%"), ("%b:y%", "B")]));
    assert_eq!("%b:y% B", out);
}

#[test]
fn substitute_keeps_placeholders_without_value() {
    let out = substitute("keep %a:x% and %b:y%", &pairs(&[("%b:y%", "B")]));
    assert_eq!("keep %a:x% and B", out);
    assert_eq!("plain", substitute("plain", &pairs(&[("%a:x%", "A")])));
}

#[test]
fn substitute_first_pair_wins() {
    let out = substitute("%a:x%", &pairs(&[("%a:x%", "first"), ("%a:x%", "second")]));
    assert_eq!("first", out);
}

#[test]
fn substitute_with_unicode_around() {
    let out = substitute("é→%u:k%←ü", &pairs(&[("%u:k%", "ok")]));
    assert_eq!("é→ok←ü", out);
}

#[test]
fn source_from_tag() {
    assert!(matches!(Source::from("env"), Source::Environment));
    assert!(matches!(Source::from("awsec2tag"), Source::AwsEc2Tag));
    assert!(matches!(Source::from("awsec2metadata"), Source::AwsEc2Metadata));
    assert!(matches!(Source::from("awsssm"), Source::AwsSsm));
    assert!(matches!(Source::from("custom"), Source::Custom(ref t) if t == "custom"));
    assert!(matches!(Source::from("envx"), Source::Custom(ref t) if t == "envx"));
    assert!(matches!(Source::from("Env"), Source::Custom(ref t) if t == "Env"));
}

#[test]
fn source_tags_and_identity() {
    for tag in ["env", "awsec2tag", "awsec2metadata", "awsssm", "mine"] {
        assert_eq!(tag, Source::from(tag).tag());
    }
    assert!(Source::Environment.is_builtin());
    assert!(!Source::Custom("env".into()).is_builtin());
    assert!(Source::from("env").same_as(&Source::Environment));
    assert!(!Source::Custom("env".into()).same_as(&Source::Environment));
    assert!(Source::Custom("a".into()).same_as(&Source::Custom("a".into())));
    assert!(!Source::Custom("a".into()).same_as(&Source::Custom("b".into())));
    assert!(Source::AwsSsm.duplicate().same_as(&Source::AwsSsm));
}
