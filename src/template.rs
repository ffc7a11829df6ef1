//! Placeholders of a template: the `%tag:key%` wire format, the scanner that finds them, and the
//! substitution pass that writes resolved values back.
//!
//! A placeholder is `%`, a tag of one or more characters `a-z` / `0-9`, `:`, a key of one or more
//! characters other than `%`, and a closing `%`. The template is scanned left to right; each match
//! is the leftmost one and the scan resumes after it, so matches never overlap. An unterminated
//! placeholder is simply not a match.
use vstd::prelude::*;

verus! {

/// A character allowed in a tag.
pub open spec fn is_tag_char(c: char) -> bool {
    ('a' <= c && c <= 'z') || ('0' <= c && c <= '9')
}

/// The number of consecutive tag characters of `s` starting at `i`.
pub open spec fn tag_run(s: Seq<char>, i: int) -> nat
    decreases s.len() - i,
{
    if 0 <= i < s.len() && is_tag_char(s[i]) {
        1 + tag_run(s, i + 1)
    } else {
        0
    }
}

/// The number of consecutive characters other than `%` of `s` starting at `i`.
pub open spec fn key_run(s: Seq<char>, i: int) -> nat
    decreases s.len() - i,
{
    if 0 <= i < s.len() && s[i] != '%' {
        1 + key_run(s, i + 1)
    } else {
        0
    }
}

/// Where the `:` after the tag of a placeholder opening at `i` has to stand.
pub open spec fn colon_at(s: Seq<char>, i: int) -> int {
    i + 1 + tag_run(s, i + 1)
}

/// Where the closing `%` of a placeholder opening at `i` has to stand.
pub open spec fn close_at(s: Seq<char>, i: int) -> int {
    colon_at(s, i) + 1 + key_run(s, colon_at(s, i) + 1)
}

/// Whether a placeholder starts at position `i` of `s`; it then spans `s[i..close_at(s, i) + 1]`.
/// Tag and key are taken as maximal runs: a shorter tag could not be followed by `:`, nor a
/// shorter key by `%`, so this is where `%[a-z0-9]+:[^%]+%` matches at `i`.
pub open spec fn placeholder_at(s: Seq<char>, i: int) -> bool {
    &&& 0 <= i < s.len()
    &&& s[i] == '%'
    &&& tag_run(s, i + 1) > 0
    &&& colon_at(s, i) < s.len()
    &&& s[colon_at(s, i)] == ':'
    &&& key_run(s, colon_at(s, i) + 1) > 0
    &&& close_at(s, i) < s.len()
    &&& s[close_at(s, i)] == '%'
}

/// Whether `t` is written `%tag:key%` with its `:` at position `c`: a tag of one or more
/// characters `a-z` / `0-9` and a key of one or more characters other than `%`.
pub open spec fn spelled_with_colon_at(t: Seq<char>, c: int) -> bool {
    &&& 2 <= c < t.len() - 2
    &&& t[0] == '%'
    &&& t[t.len() - 1] == '%'
    &&& t[c] == ':'
    &&& forall|j: int| 1 <= j < c ==> is_tag_char(#[trigger] t[j])
    &&& forall|j: int| c < j < t.len() - 1 ==> #[trigger] t[j] != '%'
}

/// Whether `t` is a placeholder text `%tag:key%`.
pub open spec fn is_placeholder_text(t: Seq<char>) -> bool {
    exists|c: int| spelled_with_colon_at(t, c)
}

proof fn lemma_tag_run_chars(s: Seq<char>, a: int)
    requires
        0 <= a,
    ensures
        a + tag_run(s, a) <= s.len() || tag_run(s, a) == 0,
        forall|j: int| a <= j < a + tag_run(s, a) ==> is_tag_char(#[trigger] s[j]),
        a + tag_run(s, a) < s.len() ==> !is_tag_char(s[a + tag_run(s, a)]),
    decreases s.len() - a,
{
    if a < s.len() && is_tag_char(s[a]) {
        lemma_tag_run_chars(s, a + 1);
    }
}

proof fn lemma_key_run_chars(s: Seq<char>, a: int)
    requires
        0 <= a,
    ensures
        a + key_run(s, a) <= s.len() || key_run(s, a) == 0,
        forall|j: int| a <= j < a + key_run(s, a) ==> #[trigger] s[j] != '%',
        a + key_run(s, a) < s.len() ==> s[a + key_run(s, a)] == '%',
    decreases s.len() - a,
{
    if a < s.len() && s[a] != '%' {
        lemma_key_run_chars(s, a + 1);
    }
}

proof fn lemma_tag_run_exact(s: Seq<char>, a: int, n: int)
    requires
        0 <= a,
        0 <= n,
        a + n < s.len(),
        forall|j: int| a <= j < a + n ==> is_tag_char(#[trigger] s[j]),
        !is_tag_char(s[a + n]),
    ensures
        tag_run(s, a) == n,
    decreases n,
{
    if n > 0 {
        lemma_tag_run_exact(s, a + 1, n - 1);
    }
}

proof fn lemma_key_run_exact(s: Seq<char>, a: int, n: int)
    requires
        0 <= a,
        0 <= n,
        a + n < s.len(),
        forall|j: int| a <= j < a + n ==> #[trigger] s[j] != '%',
        s[a + n] == '%',
    ensures
        key_run(s, a) == n,
    decreases n,
{
    if n > 0 {
        lemma_key_run_exact(s, a + 1, n - 1);
    }
}

/// The scan follows the wire format: a placeholder starts at `i` and ends just before `e`
/// exactly when `s[i..e]` is written `%tag:key%`. So the scan is leftmost-first: at each
/// position it takes the one placeholder text that starts there, if any, and goes on after it.
pub proof fn lemma_placeholder_grammar(s: Seq<char>, i: int, e: int)
    requires
        0 <= i < e <= s.len(),
    ensures
        (placeholder_at(s, i) && close_at(s, i) + 1 == e) <==> is_placeholder_text(s.subrange(i, e)),
{
    let t = s.subrange(i, e);
    if placeholder_at(s, i) && close_at(s, i) + 1 == e {
        lemma_tag_run_chars(s, i + 1);
        lemma_key_run_chars(s, colon_at(s, i) + 1);
        let c = colon_at(s, i) - i;
        assert forall|j: int| 1 <= j < c implies is_tag_char(#[trigger] t[j]) by {
            assert(t[j] == s[i + j]);
        }
        assert forall|j: int| c < j < t.len() - 1 implies #[trigger] t[j] != '%' by {
            assert(t[j] == s[i + j]);
        }
        assert(spelled_with_colon_at(t, c));
    }
    if is_placeholder_text(t) {
        let c = choose|c: int| spelled_with_colon_at(t, c);
        assert forall|j: int| i + 1 <= j < i + c implies is_tag_char(#[trigger] s[j]) by {
            assert(s[j] == t[j - i]);
        }
        assert(!is_tag_char(s[i + c])) by {
            assert(s[i + c] == t[c]);
        }
        lemma_tag_run_exact(s, i + 1, c - 1);
        assert forall|j: int| i + c + 1 <= j < e - 1 implies #[trigger] s[j] != '%' by {
            assert(s[j] == t[j - i]);
        }
        assert(s[e - 1] == t[t.len() - 1]);
        lemma_key_run_exact(s, i + c + 1, e - 1 - (i + c + 1));
        assert(s[i] == t[0]);
    }
}

/// A placeholder as the proofs see it: its full text, its tag and its key.
pub struct Token {
    pub text: Seq<char>,
    pub tag: Seq<char>,
    pub key: Seq<char>,
}

/// The placeholder that starts at `i`.
pub open spec fn token_at(s: Seq<char>, i: int) -> Token {
    Token {
        text: s.subrange(i, close_at(s, i) + 1),
        tag: s.subrange(i + 1, colon_at(s, i)),
        key: s.subrange(colon_at(s, i) + 1, close_at(s, i)),
    }
}

/// Every placeholder occurrence of `s` from position `i` on, in scanning order.
pub open spec fn tokens_from(s: Seq<char>, i: int) -> Seq<Token>
    decreases s.len() - i,
{
    if i < 0 || i >= s.len() {
        Seq::empty()
    } else if placeholder_at(s, i) {
        seq![token_at(s, i)] + tokens_from(s, close_at(s, i) + 1)
    } else {
        tokens_from(s, i + 1)
    }
}

/// Every placeholder occurrence of the template `s`, in scanning order.
pub open spec fn tokens(s: Seq<char>) -> Seq<Token> {
    tokens_from(s, 0)
}

/// Whether some placeholder of `ts` has the full text `text`.
pub open spec fn has_text(ts: Seq<Token>, text: Seq<char>) -> bool {
    exists|j: int| 0 <= j < ts.len() && ts[j].text == text
}

/// The first occurrence of each placeholder text of `ts`, in order: two placeholders are the
/// same exactly when their full texts are.
pub open spec fn distinct(ts: Seq<Token>) -> Seq<Token>
    decreases ts.len(),
{
    if ts.len() == 0 {
        ts
    } else {
        let d = distinct(ts.drop_last());
        if has_text(d, ts.last().text) {
            d
        } else {
            d.push(ts.last())
        }
    }
}

/// The view of a list of (placeholder text, value) pairs.
pub open spec fn pairs_view(r: Seq<(String, String)>) -> Seq<(Seq<char>, Seq<char>)> {
    r.map_values(|p: (String, String)| (p.0@, p.1@))
}

/// What `text` is replaced with by a list of (placeholder text, value) pairs: the value of the
/// first pair for it.
pub open spec fn replacement_map(r: Seq<(Seq<char>, Seq<char>)>) -> Map<Seq<char>, Seq<char>>
    decreases r.len(),
{
    if r.len() == 0 {
        Map::empty()
    } else {
        replacement_map(r.drop_first()).insert(r[0].0, r[0].1)
    }
}

/// The template `s` from position `i` on, each placeholder occurrence replaced with its value in
/// `m` (kept as it is where `m` has none), everything else copied. Values are inserted verbatim:
/// they are not scanned again.
pub open spec fn rendered_from(s: Seq<char>, i: int, m: Map<Seq<char>, Seq<char>>) -> Seq<char>
    decreases s.len() - i,
{
    if i < 0 || i >= s.len() {
        Seq::empty()
    } else if placeholder_at(s, i) {
        let text = token_at(s, i).text;
        (if m.contains_key(text) {
            m[text]
        } else {
            text
        }) + rendered_from(s, close_at(s, i) + 1, m)
    } else {
        seq![s[i]] + rendered_from(s, i + 1, m)
    }
}

/// The template `s` with every placeholder occurrence replaced with its value in `m`.
pub open spec fn rendered(s: Seq<char>, m: Map<Seq<char>, Seq<char>>) -> Seq<char> {
    rendered_from(s, 0, m)
}

/// The pair for `k` that `replacement_map` picks is the first one with that text.
proof fn lemma_replacement_first(r: Seq<(Seq<char>, Seq<char>)>, k: Seq<char>, j: int)
    requires
        0 <= j < r.len(),
        r[j].0 == k,
        forall|i: int| 0 <= i < j ==> r[i].0 != k,
    ensures
        replacement_map(r).contains_key(k),
        replacement_map(r)[k] == r[j].1,
    decreases j,
{
    if j > 0 {
        lemma_replacement_first(r.drop_first(), k, j - 1);
    }
}

/// A text that no pair has is not replaced.
proof fn lemma_replacement_absent(r: Seq<(Seq<char>, Seq<char>)>, k: Seq<char>)
    requires
        forall|i: int| 0 <= i < r.len() ==> r[i].0 != k,
    ensures
        !replacement_map(r).contains_key(k),
    decreases r.len(),
{
    if r.len() > 0 {
        lemma_replacement_absent(r.drop_first(), k);
    }
}

/// A placeholder of the template, with its full text, tag and key.
#[derive(Debug)]
pub struct Placeholder {
    /// The full literal text, `%tag:key%`: what is replaced in the template.
    pub text: String,
    /// The tag, which selects the source.
    pub tag: String,
    /// The key handed to the source's loader.
    pub key: String,
}

impl View for Placeholder {
    type V = Token;

    open spec fn view(&self) -> Token {
        Token { text: self.text@, tag: self.tag@, key: self.key@ }
    }
}

impl Placeholder {
    /// An independent copy of this placeholder.
    pub fn duplicate(&self) -> (r: Placeholder)
        ensures
            r@ == self@,
    {
        Placeholder { text: self.text.clone(), tag: self.tag.clone(), key: self.key.clone() }
    }
}

/// The characters of `s`, one by one.
pub(crate) fn chars_of(s: &str) -> (r: Vec<char>)
    ensures
        r@ == s@,
{
    let mut r: Vec<char> = Vec::new();
    for c in it: s.chars()
        invariant
            r@ == it.seq().subrange(0, it.index() as int),
            it.seq() == s@,
    {
        r.push(c);
    }
    r
}

fn is_tag_char_exec(c: char) -> (r: bool)
    ensures
        r == is_tag_char(c),
{
    ('a' <= c && c <= 'z') || ('0' <= c && c <= '9')
}

fn tag_run_exec(cs: &Vec<char>, i: usize) -> (r: usize)
    requires
        i <= cs@.len(),
    ensures
        r == tag_run(cs@, i as int),
        i + r <= cs@.len(),
{
    let mut j: usize = i;
    while j < cs.len() && is_tag_char_exec(cs[j])
        invariant
            i <= j <= cs@.len(),
            tag_run(cs@, i as int) == (j - i) + tag_run(cs@, j as int),
        decreases cs@.len() - j,
    {
        j = j + 1;
    }
    j - i
}

fn key_run_exec(cs: &Vec<char>, i: usize) -> (r: usize)
    requires
        i <= cs@.len(),
    ensures
        r == key_run(cs@, i as int),
        i + r <= cs@.len(),
{
    let mut j: usize = i;
    while j < cs.len() && cs[j] != '%'
        invariant
            i <= j <= cs@.len(),
            key_run(cs@, i as int) == (j - i) + key_run(cs@, j as int),
        decreases cs@.len() - j,
    {
        j = j + 1;
    }
    j - i
}

/// If a placeholder starts at `i`, the positions of its `:` and of its closing `%`.
fn placeholder_at_exec(cs: &Vec<char>, i: usize) -> (r: Option<(usize, usize)>)
    requires
        i < cs@.len(),
    ensures
        r is Some <==> placeholder_at(cs@, i as int),
        r matches Some((c, k)) ==> c == colon_at(cs@, i as int) && k == close_at(cs@, i as int),
{
    let n = cs.len();
    if cs[i] != '%' {
        return None;
    }
    let t = tag_run_exec(cs, i + 1);
    let c = i + 1 + t;
    if t == 0 || c >= n || cs[c] != ':' {
        return None;
    }
    let k = key_run_exec(cs, c + 1);
    let e = c + 1 + k;
    if k == 0 || e >= n || cs[e] != '%' {
        return None;
    }
    Some((c, e))
}

/// Every placeholder occurrence of `template`, in scanning order.
pub fn occurrences(template: &str) -> (r: Vec<Placeholder>)
    ensures
        r@.map_values(|p: Placeholder| p@) == tokens(template@),
{
    let cs = chars_of(template);
    let ghost s = template@;
    let n = cs.len();
    let mut out: Vec<Placeholder> = Vec::new();
    let mut i: usize = 0;
    while i < n
        invariant
            cs@ == s,
            s == template@,
            n == s.len(),
            i <= n,
            tokens(s) == out@.map_values(|p: Placeholder| p@) + tokens_from(s, i as int),
        decreases n - i,
    {
        match placeholder_at_exec(&cs, i) {
            Some((c, k)) => {
                let text = template.substring_char(i, k + 1).to_owned();
                let tag = text.as_str().substring_char(1, c - i).to_owned();
                let key = text.as_str().substring_char(c - i + 1, k - i).to_owned();
                let p = Placeholder { text, tag, key };
                assert(p@.tag =~= token_at(s, i as int).tag);
                assert(p@.key =~= token_at(s, i as int).key);
                assert(p@ == token_at(s, i as int));
                let ghost before = out@.map_values(|p: Placeholder| p@);
                out.push(p);
                assert(out@.map_values(|p: Placeholder| p@) =~= before.push(token_at(s, i as int)));
                assert(tokens(s) =~= out@.map_values(|p: Placeholder| p@) + tokens_from(s, k + 1));
                i = k + 1;
            },
            None => {
                i = i + 1;
            },
        }
    }
    assert(out@.map_values(|p: Placeholder| p@) + tokens_from(s, n as int) =~= out@.map_values(
        |p: Placeholder| p@,
    ));
    out
}

/// The first occurrence of each placeholder text, in order.
pub fn distinct_placeholders(ps: &Vec<Placeholder>) -> (r: Vec<Placeholder>)
    ensures
        r@.map_values(|p: Placeholder| p@) == distinct(ps@.map_values(|p: Placeholder| p@)),
{
    let ghost ts = ps@.map_values(|p: Placeholder| p@);
    let mut out: Vec<Placeholder> = Vec::new();
    let mut k: usize = 0;
    while k < ps.len()
        invariant
            ts == ps@.map_values(|p: Placeholder| p@),
            k <= ps@.len(),
            out@.map_values(|p: Placeholder| p@) == distinct(ts.subrange(0, k as int)),
        decreases ps@.len() - k,
    {
        let ghost d = out@.map_values(|p: Placeholder| p@);
        let mut seen = false;
        let mut j: usize = 0;
        while j < out.len()
            invariant
                d == out@.map_values(|p: Placeholder| p@),
                k < ps@.len(),
                j <= out@.len(),
                seen <==> exists|i: int| 0 <= i < j && d[i].text == ps@[k as int].text@,
            decreases out@.len() - j,
        {
            assert(d[j as int] == out@[j as int]@);
            if out[j].text == ps[k].text {
                seen = true;
            }
            j = j + 1;
        }
        assert(ts.subrange(0, k + 1).drop_last() =~= ts.subrange(0, k as int));
        assert(ts.subrange(0, k + 1).last() == ts[k as int]);
        if !seen {
            out.push(ps[k].duplicate());
            assert(out@.map_values(|p: Placeholder| p@) =~= d.push(ts[k as int]));
        }
        k = k + 1;
    }
    assert(ts.subrange(0, ps@.len() as int) =~= ts);
    out
}

/// The distinct placeholders of `template` (one for each full text, however often it occurs),
/// in the order of their first occurrence.
pub fn placeholders(template: &str) -> (r: Vec<Placeholder>)
    ensures
        r@.map_values(|p: Placeholder| p@) == distinct(tokens(template@)),
{
    let all = occurrences(template);
    distinct_placeholders(&all)
}

/// The index of the first pair whose placeholder text is `text`.
fn find_replacement(r: &Vec<(String, String)>, text: &String) -> (o: Option<usize>)
    ensures
        match o {
            Some(j) => j < r@.len() && replacement_map(pairs_view(r@)).contains_key(text@)
                && replacement_map(pairs_view(r@))[text@] == r@[j as int].1@,
            None => !replacement_map(pairs_view(r@)).contains_key(text@),
        },
{
    let ghost pv = pairs_view(r@);
    let mut j: usize = 0;
    while j < r.len()
        invariant
            pv == pairs_view(r@),
            j <= r@.len(),
            forall|i: int| 0 <= i < j ==> pv[i].0 != text@,
        decreases r@.len() - j,
    {
        assert(pv[j as int] == (r@[j as int].0@, r@[j as int].1@));
        if r[j].0 == *text {
            proof {
                lemma_replacement_first(pv, text@, j as int);
            }
            return Some(j);
        }
        j = j + 1;
    }
    proof {
        lemma_replacement_absent(pv, text@);
    }
    None
}

/// Replaces every placeholder occurrence of `template` with its value from `replacements`, a list
/// of (placeholder text, value) pairs, in one left-to-right pass. A placeholder without a pair is
/// kept as it is; values are inserted verbatim and never scanned again.
pub fn substitute(template: &str, replacements: &Vec<(String, String)>) -> (r: String)
    ensures
        r@ == rendered(template@, replacement_map(pairs_view(replacements@))),
{
    let ghost m = replacement_map(pairs_view(replacements@));
    let cs = chars_of(template);
    let ghost s = template@;
    let n = cs.len();
    let mut out = String::new();
    let mut seg: usize = 0;
    let mut i: usize = 0;
    while i < n
        invariant
            cs@ == s,
            s == template@,
            n == s.len(),
            seg <= i <= n,
            m == replacement_map(pairs_view(replacements@)),
            out@ + s.subrange(seg as int, i as int) + rendered_from(s, i as int, m) == rendered(s, m),
        decreases n - i,
    {
        match placeholder_at_exec(&cs, i) {
            Some((_c, k)) => {
                let text = template.substring_char(i, k + 1).to_owned();
                let ghost before = out@ + s.subrange(seg as int, i as int);
                out.append(template.substring_char(seg, i));
                match find_replacement(replacements, &text) {
                    Some(j) => {
                        out.append(replacements[j].1.as_str());
                    },
                    None => {
                        out.append(text.as_str());
                    },
                }
                assert(s.subrange(k + 1, k + 1) =~= Seq::<char>::empty());
                assert(out@ + s.subrange(k + 1, k + 1) + rendered_from(s, k + 1, m) =~= before
                    + rendered_from(s, i as int, m));
                seg = k + 1;
                i = k + 1;
            },
            None => {
                assert(s.subrange(seg as int, i + 1) =~= s.subrange(seg as int, i as int).push(
                    s[i as int],
                ));
                assert(out@ + s.subrange(seg as int, i + 1) + rendered_from(s, i + 1, m) =~= out@
                    + s.subrange(seg as int, i as int) + rendered_from(s, i as int, m));
                i = i + 1;
            },
        }
    }
    out.append(template.substring_char(seg, n));
    assert(out@ =~= out@ + rendered_from(s, n as int, m));
    out
}

} // verus!
