//! What holds of every resolution session, whatever its loaders return.
//!
//! A session is driven by outcomes: [`run`] folds [`next`] over them. A driver is faithful when
//! each outcome answers the request pending at that point: a built loader or a failure for a
//! construction, a value or a failure for a load, and nothing after the session is done or has
//! failed. The calls such a driver makes are the requests it answers.
use vstd::prelude::*;
use crate::source::{SourceId, source_of, is_builtin};
use crate::template::{
    Token, distinct, has_text, tokens, tokens_from, rendered, rendered_from, placeholder_at,
    close_at, colon_at, tag_run, token_at, replacement_map,
};
use crate::seed::{Failure, Outcome, Phase, Request, ResolutionState, decided, initial, next};

verus! {

/// The sources with a loader, the state and the pending request after `evs` were handed, one by
/// one, to a session that stood at `reg`, `st` and `q`.
pub open spec fn run(reg: Set<SourceId>, st: ResolutionState, q: Request, evs: Seq<Outcome>) -> (
    Set<SourceId>,
    ResolutionState,
    Request,
)
    decreases evs.len(),
{
    if evs.len() == 0 {
        (reg, st, q)
    } else {
        let (r1, s1, q1) = next(reg, st, evs[0]);
        run(r1, s1, q1, evs.drop_first())
    }
}

/// Whether `ev` is an answer to the request `q`.
pub open spec fn answers(q: Request, ev: Outcome) -> bool {
    match q {
        Request::Construct(_) => ev is Constructed || ev is Failed,
        Request::Load(_, _) => ev is Loaded || ev is Failed,
        _ => false,
    }
}

/// Whether each of `evs` answers the request pending when it is handed over.
pub open spec fn faithful(reg: Set<SourceId>, st: ResolutionState, q: Request, evs: Seq<Outcome>) -> bool
    decreases evs.len(),
{
    evs.len() == 0 || (answers(q, evs[0]) && {
        let (r1, s1, q1) = next(reg, st, evs[0]);
        faithful(r1, s1, q1, evs.drop_first())
    })
}

/// The load requests that the outcomes `evs` answer: the loads a driver performs.
pub open spec fn load_calls(reg: Set<SourceId>, st: ResolutionState, q: Request, evs: Seq<Outcome>) -> Seq<Request>
    decreases evs.len(),
{
    if evs.len() == 0 {
        Seq::empty()
    } else {
        let (r1, s1, q1) = next(reg, st, evs[0]);
        let rest = load_calls(r1, s1, q1, evs.drop_first());
        if q is Load {
            seq![q] + rest
        } else {
            rest
        }
    }
}

/// The sources whose default loader the outcomes `evs` answer: the loaders a driver builds.
pub open spec fn construct_calls(
    reg: Set<SourceId>,
    st: ResolutionState,
    q: Request,
    evs: Seq<Outcome>,
) -> Seq<SourceId>
    decreases evs.len(),
{
    if evs.len() == 0 {
        Seq::empty()
    } else {
        let (r1, s1, q1) = next(reg, st, evs[0]);
        let rest = construct_calls(r1, s1, q1, evs.drop_first());
        match q {
            Request::Construct(id) => seq![id] + rest,
            _ => rest,
        }
    }
}

/// The load request for a placeholder.
pub open spec fn load_of(t: Token) -> Request {
    Request::Load(source_of(t.tag), t.key)
}

/// A session over the distinct placeholders `ts` is in a state that its own decisions lead to.
pub open spec fn consistent(ts: Seq<Token>, reg: Set<SourceId>, st: ResolutionState, q: Request) -> bool {
    let pos = st.replacements.len();
    &&& st.tokens == ts
    &&& pos <= ts.len()
    &&& forall|i: int| 0 <= i < pos ==> #[trigger] st.replacements[i].0 == ts[i].text
    &&& forall|i: int| 0 <= i < pos ==> reg.contains(source_of(#[trigger] ts[i].tag))
    &&& match st.phase {
        Phase::Loading => pos < ts.len() && q == load_of(ts[pos as int]) && reg.contains(
            source_of(ts[pos as int].tag),
        ),
        Phase::Constructing => pos < ts.len() && q == Request::Construct(
            source_of(ts[pos as int].tag),
        ) && !reg.contains(source_of(ts[pos as int].tag)) && is_builtin(
            source_of(ts[pos as int].tag),
        ),
        Phase::Done => pos == ts.len() && q == Request::Done,
        Phase::Failed(f) => q == Request::Fail(f),
    }
}

proof fn lemma_decided_consistent(ts: Seq<Token>, reg: Set<SourceId>, st: ResolutionState)
    requires
        st.tokens == ts,
        st.replacements.len() <= ts.len(),
        forall|i: int| 0 <= i < st.replacements.len() ==> #[trigger] st.replacements[i].0 == ts[i].text,
        forall|i: int| 0 <= i < st.replacements.len() ==> reg.contains(source_of(#[trigger] ts[i].tag)),
    ensures
        ({
            let (r1, s1, q1) = decided(reg, st);
            r1 == reg && consistent(ts, r1, s1, q1) && s1.replacements == st.replacements
        }),
{
}

proof fn lemma_next_consistent(
    ts: Seq<Token>,
    reg: Set<SourceId>,
    st: ResolutionState,
    q: Request,
    ev: Outcome,
)
    requires
        consistent(ts, reg, st, q),
    ensures
        ({
            let (r1, s1, q1) = next(reg, st, ev);
            consistent(ts, r1, s1, q1) && reg.subset_of(r1)
        }),
{
    let pos = st.replacements.len();
    match st.phase {
        Phase::Constructing => {
            let id = source_of(ts[pos as int].tag);
            if ev is Constructed {
                lemma_decided_consistent(ts, reg.insert(id), st);
            }
        },
        Phase::Loading => {
            if let Outcome::Loaded(v) = ev {
                let t = ts[pos as int];
                let st2 = ResolutionState { replacements: st.replacements.push((t.text, v)), ..st };
                assert forall|i: int| 0 <= i < st2.replacements.len() implies #[trigger] st2.replacements[i].0
                    == ts[i].text by {
                    if i < pos {
                        assert(st2.replacements[i] == st.replacements[i]);
                    }
                }
                lemma_decided_consistent(ts, reg, st2);
            }
        },
        _ => {},
    }
}

/// A session starts consistent with the distinct placeholders of its template.
proof fn lemma_start_consistent(s: Seq<char>, reg: Set<SourceId>)
    ensures
        ({
            let (r0, s0, q0) = decided(reg, initial(s));
            consistent(distinct(tokens(s)), r0, s0, q0)
        }),
{
    lemma_decided_consistent(distinct(tokens(s)), reg, initial(s));
}

proof fn lemma_loads_from(
    ts: Seq<Token>,
    reg: Set<SourceId>,
    st: ResolutionState,
    q: Request,
    evs: Seq<Outcome>,
)
    requires
        consistent(ts, reg, st, q),
        faithful(reg, st, q, evs),
        run(reg, st, q, evs).1.phase is Done,
    ensures
        load_calls(reg, st, q, evs) == ts.subrange(st.replacements.len() as int, ts.len() as int).map_values(
            |t: Token| load_of(t),
        ),
    decreases evs.len(),
{
    let pos = st.replacements.len();
    if evs.len() == 0 {
        assert(ts.subrange(pos as int, ts.len() as int).map_values(|t: Token| load_of(t)) =~= Seq::<
            Request,
        >::empty());
    } else {
        let (r1, s1, q1) = next(reg, st, evs[0]);
        lemma_next_consistent(ts, reg, st, q, evs[0]);
        if evs[0] is Failed {
            assert(s1.phase is Failed);
            assert(faithful(r1, s1, q1, evs.drop_first()));
            if evs.drop_first().len() > 0 {
                assert(!answers(q1, evs.drop_first()[0]));
            }
            assert(evs.drop_first().len() == 0);
            assert(run(r1, s1, q1, evs.drop_first()) == (r1, s1, q1));
            assert(false);
        }
        lemma_loads_from(ts, r1, s1, q1, evs.drop_first());
        if q is Load {
            assert(s1.replacements.len() == pos + 1);
            assert(ts.subrange(pos as int, ts.len() as int).map_values(|t: Token| load_of(t)) =~= seq![
                load_of(ts[pos as int]),
            ] + ts.subrange(pos + 1 as int, ts.len() as int).map_values(|t: Token| load_of(t)));
        }
    }
}

/// Each distinct placeholder text is loaded exactly once. A faithful driver that brings a
/// resolution of template `s` to completion makes one load call per distinct placeholder text,
/// in the order of first occurrence, each with that placeholder's source and key; the finished
/// resolution holds one (text, value) pair for each of those texts, in the same order and with no
/// text twice, so every occurrence of a text is replaced with the one value loaded for it.
pub proof fn lemma_each_text_loaded_once(s: Seq<char>, reg: Set<SourceId>, evs: Seq<Outcome>)
    requires
        ({
            let (r0, s0, q0) = decided(reg, initial(s));
            faithful(r0, s0, q0, evs) && run(r0, s0, q0, evs).1.phase is Done
        }),
    ensures
        ({
            let (r0, s0, q0) = decided(reg, initial(s));
            let fin = run(r0, s0, q0, evs).1;
            &&& load_calls(r0, s0, q0, evs) == distinct(tokens(s)).map_values(|t: Token| load_of(t))
            &&& fin.replacements.len() == distinct(tokens(s)).len()
            &&& forall|i: int|
                0 <= i < fin.replacements.len() ==> #[trigger] fin.replacements[i].0 == distinct(
                    tokens(s),
                )[i].text
            &&& forall|k: int|
                0 <= k < tokens(s).len() ==> replacement_map(fin.replacements).contains_key(
                    #[trigger] tokens(s)[k].text,
                )
            &&& forall|i: int, j: int|
                0 <= i < j < fin.replacements.len() ==> fin.replacements[i].0
                    != fin.replacements[j].0
        }),
{
    let ts = distinct(tokens(s));
    let (r0, s0, q0) = decided(reg, initial(s));
    lemma_start_consistent(s, reg);
    lemma_loads_from(ts, r0, s0, q0, evs);
    assert(ts.subrange(0, ts.len() as int) =~= ts);
    lemma_run_consistent(ts, r0, s0, q0, evs);
    let fin = run(r0, s0, q0, evs).1;
    lemma_distinct(tokens(s));
    assert forall|k: int| 0 <= k < tokens(s).len() implies replacement_map(
        fin.replacements,
    ).contains_key(#[trigger] tokens(s)[k].text) by {
        let i = choose|i: int| 0 <= i < ts.len() && ts[i].text == tokens(s)[k].text;
        lemma_replacement_has(fin.replacements, i);
    }
}

/// Each placeholder of a template is loaded exactly once. For every placeholder of template `s`,
/// however often its text occurs, exactly one of the load calls that a faithful driver makes to
/// complete the resolution is that placeholder's load, with its source and key: placeholders
/// that differ by key or by tag get their own call.
pub proof fn lemma_each_placeholder_loaded_once(
    s: Seq<char>,
    reg: Set<SourceId>,
    evs: Seq<Outcome>,
    k: int,
)
    requires
        ({
            let (r0, s0, q0) = decided(reg, initial(s));
            faithful(r0, s0, q0, evs) && run(r0, s0, q0, evs).1.phase is Done
        }),
        0 <= k < tokens(s).len(),
    ensures
        ({
            let (r0, s0, q0) = decided(reg, initial(s));
            let calls = load_calls(r0, s0, q0, evs);
            exists|i: int|
                0 <= i < calls.len() && calls[i] == load_of(tokens(s)[k]) && forall|j: int|
                    0 <= j < calls.len() && #[trigger] calls[j] == load_of(tokens(s)[k]) ==> j == i
        }),
{
    let ts = tokens(s);
    let d = distinct(ts);
    let (r0, s0, q0) = decided(reg, initial(s));
    let calls = load_calls(r0, s0, q0, evs);
    lemma_each_text_loaded_once(s, reg, evs);
    lemma_distinct(ts);
    lemma_tokens_spelled(s, 0);
    let i = lemma_entry_of(s, k);
    assert(calls[i] == load_of(ts[k]));
    assert forall|j: int| 0 <= j < calls.len() && #[trigger] calls[j] == load_of(ts[k]) implies j
        == i by {
        assert(calls[j] == load_of(d[j]));
        assert(ts.contains(d[j]));
        let c = choose|c: int| 0 <= c < ts.len() && ts[c] == d[j];
        assert(spelled_by_text(ts[c]));
        lemma_load_of_injective(d[j], d[i]);
        if j != i {
            if j < i {
                assert(d[j].text != d[i].text);
            } else {
                assert(d[i].text != d[j].text);
            }
        }
    }
}

/// The loaders a session ends with were there when it started or were built during it.
proof fn lemma_run_registry(
    ts: Seq<Token>,
    reg: Set<SourceId>,
    st: ResolutionState,
    q: Request,
    evs: Seq<Outcome>,
)
    requires
        consistent(ts, reg, st, q),
    ensures
        forall|x: SourceId|
            #[trigger] run(reg, st, q, evs).0.contains(x) ==> reg.contains(x) || construct_calls(
                reg,
                st,
                q,
                evs,
            ).contains(x),
    decreases evs.len(),
{
    if evs.len() > 0 {
        let (r1, s1, q1) = next(reg, st, evs[0]);
        lemma_next_consistent(ts, reg, st, q, evs[0]);
        lemma_run_registry(ts, r1, s1, q1, evs.drop_first());
        let rest = construct_calls(r1, s1, q1, evs.drop_first());
        let c = construct_calls(reg, st, q, evs);
        assert(run(reg, st, q, evs) == run(r1, s1, q1, evs.drop_first()));
        assert(r1 == reg || (q is Construct && r1 == reg.insert(q->Construct_0)));
        assert forall|x: SourceId| #[trigger] run(reg, st, q, evs).0.contains(x) implies reg.contains(x)
            || c.contains(x) by {
            assert(run(r1, s1, q1, evs.drop_first()).0.contains(x));
            if rest.contains(x) {
                let i = choose|i: int| 0 <= i < rest.len() && rest[i] == x;
                if let Request::Construct(id) = q {
                    assert(c == seq![id] + rest);
                    assert(c[i + 1] == rest[i]);
                } else {
                    assert(c == rest);
                    assert(c[i] == rest[i]);
                }
            } else if !reg.contains(x) {
                if let Request::Construct(id) = q {
                    assert(c == seq![id] + rest);
                    assert(c[0] == id);
                }
            }
        }
    }
}

/// Each built-in source of a template that has no loader yet gets exactly one. A faithful driver
/// that completes the resolution builds the default loader of such a source exactly once, every
/// load of its placeholders goes to that loader, and the session ends with a loader for every
/// source of the template, so a later resolution in the same session builds none of them again.
pub proof fn lemma_builtin_built_exactly_once(
    s: Seq<char>,
    reg: Set<SourceId>,
    evs: Seq<Outcome>,
    k: int,
)
    requires
        ({
            let (r0, s0, q0) = decided(reg, initial(s));
            faithful(r0, s0, q0, evs) && run(r0, s0, q0, evs).1.phase is Done
        }),
        0 <= k < tokens(s).len(),
        is_builtin(source_of(tokens(s)[k].tag)),
        !reg.contains(source_of(tokens(s)[k].tag)),
    ensures
        ({
            let (r0, s0, q0) = decided(reg, initial(s));
            let c = construct_calls(r0, s0, q0, evs);
            let id = source_of(tokens(s)[k].tag);
            &&& exists|i: int|
                0 <= i < c.len() && c[i] == id && forall|j: int|
                    0 <= j < c.len() && #[trigger] c[j] == id ==> j == i
            &&& forall|m: int|
                0 <= m < tokens(s).len() ==> run(r0, s0, q0, evs).0.contains(
                    source_of(#[trigger] tokens(s)[m].tag),
                )
        }),
{
    let ts = tokens(s);
    let d = distinct(ts);
    let (r0, s0, q0) = decided(reg, initial(s));
    let c = construct_calls(r0, s0, q0, evs);
    let fin = run(r0, s0, q0, evs);
    let id = source_of(ts[k].tag);
    lemma_start_consistent(s, reg);
    lemma_run_consistent(d, r0, s0, q0, evs);
    lemma_run_registry(d, r0, s0, q0, evs);
    lemma_loader_built_once(s, reg, evs);
    assert forall|m: int| 0 <= m < ts.len() implies fin.0.contains(source_of(#[trigger] ts[m].tag)) by {
        let e = lemma_entry_of(s, m);
        assert(fin.0.contains(source_of(d[e].tag)));
    }
    assert(fin.0.contains(id));
    assert(c.contains(id));
    let i = choose|i: int| 0 <= i < c.len() && c[i] == id;
    assert forall|j: int| 0 <= j < c.len() && #[trigger] c[j] == id implies j == i by {
        if j < i {
            assert(c[j] != c[i]);
        } else if i < j {
            assert(c[i] != c[j]);
        }
    }
}

/// Every text of a list of pairs is replaced.
proof fn lemma_replacement_has(r: Seq<(Seq<char>, Seq<char>)>, i: int)
    requires
        0 <= i < r.len(),
    ensures
        replacement_map(r).contains_key(r[i].0),
    decreases i,
{
    if i > 0 {
        lemma_replacement_has(r.drop_first(), i - 1);
        assert(r.drop_first()[i - 1] == r[i]);
    }
}

/// Whatever the outcomes, a session stays consistent and never loses a loader.
proof fn lemma_run_consistent(
    ts: Seq<Token>,
    reg: Set<SourceId>,
    st: ResolutionState,
    q: Request,
    evs: Seq<Outcome>,
)
    requires
        consistent(ts, reg, st, q),
    ensures
        ({
            let (r1, s1, q1) = run(reg, st, q, evs);
            consistent(ts, r1, s1, q1) && reg.subset_of(r1)
        }),
    decreases evs.len(),
{
    if evs.len() > 0 {
        let (r1, s1, q1) = next(reg, st, evs[0]);
        lemma_next_consistent(ts, reg, st, q, evs[0]);
        lemma_run_consistent(ts, r1, s1, q1, evs.drop_first());
    }
}

proof fn lemma_constructs_from(
    ts: Seq<Token>,
    reg: Set<SourceId>,
    st: ResolutionState,
    q: Request,
    evs: Seq<Outcome>,
)
    requires
        consistent(ts, reg, st, q),
        faithful(reg, st, q, evs),
    ensures
        ({
            let c = construct_calls(reg, st, q, evs);
            &&& forall|i: int| 0 <= i < c.len() ==> !reg.contains(#[trigger] c[i])
            &&& forall|i: int, j: int| 0 <= i < j < c.len() ==> c[i] != c[j]
        }),
    decreases evs.len(),
{
    if evs.len() > 0 {
        let (r1, s1, q1) = next(reg, st, evs[0]);
        lemma_next_consistent(ts, reg, st, q, evs[0]);
        lemma_constructs_from(ts, r1, s1, q1, evs.drop_first());
        let rest = construct_calls(r1, s1, q1, evs.drop_first());
        let c = construct_calls(reg, st, q, evs);
        if let Request::Construct(id) = q {
            assert(c == seq![id] + rest);
            if evs[0] is Constructed {
                assert(r1.contains(id));
            } else {
                assert(faithful(r1, s1, q1, evs.drop_first()));
                if evs.drop_first().len() > 0 {
                    assert(!answers(q1, evs.drop_first()[0]));
                }
                assert(evs.drop_first().len() == 0);
                assert(rest.len() == 0);
            }
            assert forall|i: int| 0 <= i < c.len() implies !reg.contains(#[trigger] c[i]) by {
                if i > 0 {
                    assert(c[i] == rest[i - 1]);
                }
            }
            assert forall|i: int, j: int| 0 <= i < j < c.len() implies c[i] != c[j] by {
                assert(c[j] == rest[j - 1]);
                if i > 0 {
                    assert(c[i] == rest[i - 1]);
                }
            }
        } else {
            assert(c == rest);
        }
    }
}

/// A loader is built at most once per source in a session, and never for a source that already
/// has one: the sources whose default loader a faithful driver builds are pairwise different and
/// had no loader when the session started.
pub proof fn lemma_loader_built_once(s: Seq<char>, reg: Set<SourceId>, evs: Seq<Outcome>)
    requires
        ({
            let (r0, s0, q0) = decided(reg, initial(s));
            faithful(r0, s0, q0, evs)
        }),
    ensures
        ({
            let (r0, s0, q0) = decided(reg, initial(s));
            let c = construct_calls(r0, s0, q0, evs);
            &&& forall|i: int| 0 <= i < c.len() ==> !reg.contains(#[trigger] c[i])
            &&& forall|i: int, j: int| 0 <= i < j < c.len() ==> c[i] != c[j]
        }),
{
    let (r0, s0, q0) = decided(reg, initial(s));
    lemma_start_consistent(s, reg);
    lemma_constructs_from(distinct(tokens(s)), r0, s0, q0, evs);
}

/// The tag written in a placeholder text `%tag:key%`.
pub open spec fn tag_of_text(t: Seq<char>) -> Seq<char> {
    t.subrange(1, 1 + tag_run(t, 1) as int)
}

/// The key written in a placeholder text `%tag:key%`.
pub open spec fn key_of_text(t: Seq<char>) -> Seq<char> {
    t.subrange(2 + tag_run(t, 1) as int, t.len() - 1)
}

/// The placeholder text written from a tag and a key.
pub open spec fn written(tag: Seq<char>, key: Seq<char>) -> Seq<char> {
    seq!['%'] + tag + seq![':'] + key + seq!['%']
}

/// Whether the tag and key of `t` are the ones its text spells, and its text is the one they
/// write.
pub open spec fn spelled_by_text(t: Token) -> bool {
    &&& t.tag == tag_of_text(t.text)
    &&& t.key == key_of_text(t.text)
    &&& t.text == written(t.tag, t.key)
}

proof fn lemma_tag_run_within(s: Seq<char>, i: int, e: int, j: int)
    requires
        0 <= i <= j,
        j + tag_run(s, j) < e <= s.len(),
    ensures
        tag_run(s.subrange(i, e), j - i) == tag_run(s, j),
    decreases e - j,
{
    if tag_run(s, j) > 0 {
        lemma_tag_run_within(s, i, e, j + 1);
    }
}

/// Each placeholder of a template carries the tag and key that its text spells.
proof fn lemma_token_spelled(s: Seq<char>, i: int)
    requires
        placeholder_at(s, i),
    ensures
        spelled_by_text(token_at(s, i)),
{
    let e = close_at(s, i) + 1;
    let text = s.subrange(i, e);
    lemma_tag_run_within(s, i, e, i + 1);
    let r = tag_run(s, i + 1);
    assert(tag_of_text(text) =~= s.subrange(i + 1, colon_at(s, i)));
    assert(key_of_text(text) =~= s.subrange(colon_at(s, i) + 1, close_at(s, i)));
    let t = token_at(s, i);
    assert(t.text =~= written(t.tag, t.key));
}

/// Different tags select different sources.
proof fn lemma_source_of_injective(a: Seq<char>, b: Seq<char>)
    requires
        source_of(a) == source_of(b),
    ensures
        a == b,
{
}

/// Placeholders whose texts spell their tags and keys have the same load exactly when they
/// have the same text.
proof fn lemma_load_of_injective(t1: Token, t2: Token)
    requires
        spelled_by_text(t1),
        spelled_by_text(t2),
        load_of(t1) == load_of(t2),
    ensures
        t1.text == t2.text,
{
    lemma_source_of_injective(t1.tag, t2.tag);
}

proof fn lemma_tokens_spelled(s: Seq<char>, i: int)
    ensures
        forall|a: int| 0 <= a < tokens_from(s, i).len() ==> spelled_by_text(#[trigger] tokens_from(s, i)[a]),
    decreases s.len() - i,
{
    if 0 <= i < s.len() {
        if placeholder_at(s, i) {
            lemma_token_spelled(s, i);
            lemma_tokens_spelled(s, close_at(s, i) + 1);
            let rest = tokens_from(s, close_at(s, i) + 1);
            assert(tokens_from(s, i) == seq![token_at(s, i)] + rest);
            assert forall|a: int| 0 <= a < tokens_from(s, i).len() implies spelled_by_text(
                #[trigger] tokens_from(s, i)[a],
            ) by {
                if a > 0 {
                    assert(tokens_from(s, i)[a] == rest[a - 1]);
                } else {
                    assert(tokens_from(s, i)[a] == token_at(s, i));
                }
            }
        } else {
            lemma_tokens_spelled(s, i + 1);
            assert(tokens_from(s, i) == tokens_from(s, i + 1));
        }
    }
}

/// The distinct placeholders are placeholders of the list, with pairwise different texts, and
/// every text of the list is among them.
proof fn lemma_distinct(ts: Seq<Token>)
    ensures
        forall|m: int| 0 <= m < distinct(ts).len() ==> ts.contains(#[trigger] distinct(ts)[m]),
        forall|i: int, j: int|
            0 <= i < j < distinct(ts).len() ==> distinct(ts)[i].text != distinct(ts)[j].text,
        forall|a: int| 0 <= a < ts.len() ==> has_text(distinct(ts), #[trigger] ts[a].text),
    decreases ts.len(),
{
    if ts.len() > 0 {
        let init = ts.drop_last();
        lemma_distinct(init);
        let d = distinct(init);
        assert forall|m: int| 0 <= m < distinct(ts).len() implies ts.contains(
            #[trigger] distinct(ts)[m],
        ) by {
            if m < d.len() {
                assert(distinct(ts)[m] == d[m]);
                let a = choose|a: int| 0 <= a < init.len() && init[a] == d[m];
                assert(ts[a] == d[m]);
            } else {
                assert(distinct(ts)[m] == ts[ts.len() - 1]);
            }
        }
        assert forall|a: int| 0 <= a < ts.len() implies has_text(distinct(ts), #[trigger] ts[a].text) by {
            if a < init.len() {
                assert(init[a] == ts[a]);
                assert(has_text(d, init[a].text));
                let j = choose|j: int| 0 <= j < d.len() && d[j].text == init[a].text;
                assert(distinct(ts)[j] == d[j]);
            } else if !has_text(d, ts.last().text) {
                assert(distinct(ts)[d.len() as int] == ts.last());
            }
        }
    }
}

/// Substitution leaves a template without placeholders as it is.
proof fn lemma_rendered_plain(s: Seq<char>, i: int, m: Map<Seq<char>, Seq<char>>)
    requires
        0 <= i <= s.len(),
        tokens_from(s, i).len() == 0,
    ensures
        rendered_from(s, i, m) == s.subrange(i, s.len() as int),
    decreases s.len() - i,
{
    if i < s.len() {
        assert(!placeholder_at(s, i));
        lemma_rendered_plain(s, i + 1, m);
        assert(s.subrange(i, s.len() as int) =~= seq![s[i]] + s.subrange(i + 1, s.len() as int));
    } else {
        assert(s.subrange(i, s.len() as int) =~= Seq::<char>::empty());
    }
}

/// A template without placeholders comes out unchanged: its resolution is done at once, with no
/// replacement and no loader call, and substitution leaves every character in place.
pub proof fn lemma_no_placeholders_unchanged(s: Seq<char>, reg: Set<SourceId>, m: Map<Seq<char>, Seq<char>>)
    requires
        tokens(s).len() == 0,
    ensures
        decided(reg, initial(s)).2 == Request::Done,
        decided(reg, initial(s)).1.replacements.len() == 0,
        rendered(s, m) == s,
{
    assert(distinct(tokens(s)).len() == 0);
    lemma_rendered_plain(s, 0, m);
    assert(s.subrange(0, s.len() as int) =~= s);
}

/// Placeholders are told apart by their full text alone. Two placeholders of a template are each
/// among its distinct placeholders, with their own tag and key; they share one entry, and so one
/// load, exactly when their texts are equal. Texts that differ only by key, or only by tag, are
/// resolved separately even when they name the same source.
pub proof fn lemma_resolved_independently(s: Seq<char>, a: int, b: int)
    requires
        0 <= a < tokens(s).len(),
        0 <= b < tokens(s).len(),
    ensures
        exists|i: int, j: int|
            0 <= i < distinct(tokens(s)).len() && 0 <= j < distinct(tokens(s)).len()
                && #[trigger] distinct(tokens(s))[i] == tokens(s)[a]
                && #[trigger] distinct(tokens(s))[j] == tokens(s)[b]
                && (i == j <==> tokens(s)[a].text == tokens(s)[b].text),
{
    let ts = tokens(s);
    let d = distinct(ts);
    lemma_distinct(ts);
    lemma_tokens_spelled(s, 0);
    let i = lemma_entry_of(s, a);
    let j = lemma_entry_of(s, b);
    assert(d[i] == ts[a] && d[j] == ts[b] && (i == j <==> ts[a].text == ts[b].text));
}

/// The entry of the distinct placeholders that stands for placeholder `a` of the template.
proof fn lemma_entry_of(s: Seq<char>, a: int) -> (i: int)
    requires
        0 <= a < tokens(s).len(),
    ensures
        0 <= i < distinct(tokens(s)).len(),
        distinct(tokens(s))[i] == tokens(s)[a],
{
    let ts = tokens(s);
    let d = distinct(ts);
    lemma_distinct(ts);
    lemma_tokens_spelled(s, 0);
    assert(has_text(d, ts[a].text));
    let i = choose|i: int| 0 <= i < d.len() && d[i].text == ts[a].text;
    assert(ts.contains(d[i]));
    let c = choose|c: int| 0 <= c < ts.len() && ts[c] == d[i];
    assert(spelled_by_text(ts[c]));
    assert(spelled_by_text(ts[a]));
    i
}

/// A session that cannot get past placeholder `k`: its custom source has no loader.
spec fn blocked_at(ts: Seq<Token>, reg: Set<SourceId>, st: ResolutionState, k: int) -> bool {
    &&& 0 <= k < ts.len()
    &&& st.replacements.len() <= k
    &&& !is_builtin(source_of(ts[k].tag))
    &&& !reg.contains(source_of(ts[k].tag))
}

proof fn lemma_blocked_run(
    ts: Seq<Token>,
    reg: Set<SourceId>,
    st: ResolutionState,
    q: Request,
    evs: Seq<Outcome>,
    k: int,
)
    requires
        consistent(ts, reg, st, q),
        blocked_at(ts, reg, st, k),
    ensures
        ({
            let (r1, s1, q1) = run(reg, st, q, evs);
            blocked_at(ts, r1, s1, k) && consistent(ts, r1, s1, q1)
        }),
    decreases evs.len(),
{
    if evs.len() > 0 {
        let (r1, s1, q1) = next(reg, st, evs[0]);
        lemma_next_consistent(ts, reg, st, q, evs[0]);
        assert(blocked_at(ts, r1, s1, k));
        lemma_blocked_run(ts, r1, s1, q1, evs.drop_first(), k);
    }
}

/// A placeholder whose tag names a custom source without a registered loader makes resolution
/// fail: whatever the outcomes handed to it, the session never finishes, so no output is made.
pub proof fn lemma_unregistered_custom_never_done(
    s: Seq<char>,
    reg: Set<SourceId>,
    k: int,
    evs: Seq<Outcome>,
)
    requires
        0 <= k < tokens(s).len(),
        !is_builtin(source_of(tokens(s)[k].tag)),
        !reg.contains(source_of(tokens(s)[k].tag)),
    ensures
        ({
            let (r0, s0, q0) = decided(reg, initial(s));
            !(run(r0, s0, q0, evs).1.phase is Done)
        }),
{
    let ts = distinct(tokens(s));
    let (r0, s0, q0) = decided(reg, initial(s));
    lemma_start_consistent(s, reg);
    let i = lemma_entry_of(s, k);
    lemma_blocked_run(ts, r0, s0, q0, evs, i);
}

/// Every custom source of the placeholders of `ts` has a loader.
spec fn customs_registered(ts: Seq<Token>, reg: Set<SourceId>) -> bool {
    forall|m: int|
        0 <= m < ts.len() && !is_builtin(source_of(#[trigger] ts[m].tag)) ==> reg.contains(
            source_of(ts[m].tag),
        )
}

proof fn lemma_registered_run(
    ts: Seq<Token>,
    reg: Set<SourceId>,
    st: ResolutionState,
    q: Request,
    evs: Seq<Outcome>,
)
    requires
        consistent(ts, reg, st, q),
        customs_registered(ts, reg),
        !(st.phase is Failed),
        forall|i: int| 0 <= i < evs.len() ==> !(#[trigger] evs[i] is Failed),
    ensures
        !(run(reg, st, q, evs).1.phase is Failed),
    decreases evs.len(),
{
    if evs.len() > 0 {
        let (r1, s1, q1) = next(reg, st, evs[0]);
        lemma_next_consistent(ts, reg, st, q, evs[0]);
        assert(!(evs[0] is Failed));
        assert(!(s1.phase is Failed));
        assert forall|i: int| 0 <= i < evs.drop_first().len() implies !(
        #[trigger] evs.drop_first()[i] is Failed) by {
            assert(evs.drop_first()[i] == evs[i + 1]);
        }
        lemma_registered_run(ts, r1, s1, q1, evs.drop_first());
    }
}

/// With a loader registered for every custom source of its placeholders, a template resolves
/// without failure as long as every loader can be built and every load succeeds.
pub proof fn lemma_registered_custom_never_fails(s: Seq<char>, reg: Set<SourceId>, evs: Seq<Outcome>)
    requires
        forall|k: int|
            0 <= k < tokens(s).len() && !is_builtin(source_of(#[trigger] tokens(s)[k].tag))
                ==> reg.contains(source_of(tokens(s)[k].tag)),
        forall|i: int| 0 <= i < evs.len() ==> !(#[trigger] evs[i] is Failed),
    ensures
        ({
            let (r0, s0, q0) = decided(reg, initial(s));
            !(run(r0, s0, q0, evs).1.phase is Failed)
        }),
{
    let ts = tokens(s);
    let d = distinct(ts);
    let (r0, s0, q0) = decided(reg, initial(s));
    lemma_start_consistent(s, reg);
    lemma_distinct(ts);
    assert forall|m: int|
        0 <= m < d.len() && !is_builtin(source_of(#[trigger] d[m].tag)) implies reg.contains(
        source_of(d[m].tag),
    ) by {
        let c = choose|c: int| 0 <= c < ts.len() && ts[c] == d[m];
        assert(ts[c] == d[m]);
    }
    lemma_registered_run(d, r0, s0, q0, evs);
}

/// A failed session that no loader failed: it stopped at a placeholder whose custom source has
/// no loader, and says so.
spec fn stopped_unsupported(ts: Seq<Token>, reg: Set<SourceId>, st: ResolutionState) -> bool {
    let pos = st.replacements.len();
    st.phase matches Phase::Failed(f) ==> {
        &&& pos < ts.len()
        &&& f == Failure::UnsupportedSource(ts[pos as int].tag)
        &&& !is_builtin(source_of(ts[pos as int].tag))
        &&& !reg.contains(source_of(ts[pos as int].tag))
    }
}

proof fn lemma_unsupported_run(
    ts: Seq<Token>,
    reg: Set<SourceId>,
    st: ResolutionState,
    q: Request,
    evs: Seq<Outcome>,
)
    requires
        consistent(ts, reg, st, q),
        stopped_unsupported(ts, reg, st),
        forall|i: int| 0 <= i < evs.len() ==> !(#[trigger] evs[i] is Failed),
    ensures
        ({
            let (r1, s1, q1) = run(reg, st, q, evs);
            stopped_unsupported(ts, r1, s1)
        }),
    decreases evs.len(),
{
    if evs.len() > 0 {
        let (r1, s1, q1) = next(reg, st, evs[0]);
        lemma_next_consistent(ts, reg, st, q, evs[0]);
        assert(!(evs[0] is Failed));
        assert(stopped_unsupported(ts, r1, s1));
        assert forall|i: int| 0 <= i < evs.drop_first().len() implies !(
        #[trigger] evs.drop_first()[i] is Failed) by {
            assert(evs.drop_first()[i] == evs[i + 1]);
        }
        lemma_unsupported_run(ts, r1, s1, q1, evs.drop_first());
    }
}

/// When every loader that is asked builds or loads successfully, a resolution can fail only for
/// an unsupported source, and its failure names the tag of a placeholder of the template whose
/// custom source had no registered loader.
pub proof fn lemma_failure_names_unregistered_tag(s: Seq<char>, reg: Set<SourceId>, evs: Seq<Outcome>)
    requires
        forall|i: int| 0 <= i < evs.len() ==> !(#[trigger] evs[i] is Failed),
    ensures
        ({
            let (r0, s0, q0) = decided(reg, initial(s));
            run(r0, s0, q0, evs).1.phase matches Phase::Failed(f) ==> exists|k: int|
                0 <= k < tokens(s).len() && f == Failure::UnsupportedSource(
                    #[trigger] tokens(s)[k].tag,
                ) && !is_builtin(source_of(tokens(s)[k].tag)) && !reg.contains(
                    source_of(tokens(s)[k].tag),
                )
        }),
{
    let ts = tokens(s);
    let d = distinct(ts);
    let (r0, s0, q0) = decided(reg, initial(s));
    lemma_start_consistent(s, reg);
    assert(stopped_unsupported(d, r0, s0));
    lemma_unsupported_run(d, r0, s0, q0, evs);
    lemma_run_consistent(d, r0, s0, q0, evs);
    let (r1, s1, q1) = run(r0, s0, q0, evs);
    if let Phase::Failed(f) = s1.phase {
        let pos = s1.replacements.len();
        lemma_distinct(ts);
        assert(ts.contains(d[pos as int]));
        let k = choose|k: int| 0 <= k < ts.len() && ts[k] == d[pos as int];
        assert(ts[k] == d[pos as int]);
    }
}

} // verus!
