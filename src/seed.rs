//! One resolution session: a template, the loaders registered for it, and the decisions that
//! resolve its placeholders one after the other.
//!
//! Loading a value may take a network round trip, so the session does not call loaders itself.
//! [`Seed::begin`] and [`Seed::step`] hand out [`Action`]s (build the default loader of a
//! built-in source, load a key through a registered loader) and take the outcome back as an
//! [`Event`]. Whoever drives the session performs the actions, in order, one at a time.
use vstd::prelude::*;
use crate::source::{Source, SourceId, builtin_tag, source_of, is_builtin};
use crate::template::{
    Placeholder, Token, distinct, tokens, placeholders, pairs_view, replacement_map, rendered,
    substitute,
};

verus! {

/// Why a resolution failed, as the proofs see it.
pub enum Failure {
    /// A custom tag without a registered loader.
    UnsupportedSource(Seq<char>),
    /// Building the default loader of a built-in source failed: the source and the cause.
    Construct(SourceId, Seq<char>),
    /// A loader failed to load a key: the key, the source and the cause.
    Load(Seq<char>, SourceId, Seq<char>),
}

/// What the session asks of its driver, as the proofs see it.
pub enum Request {
    Construct(SourceId),
    Load(SourceId, Seq<char>),
    Done,
    Fail(Failure),
}

/// An outcome handed back to the session, as the proofs see it (a built loader is not shown).
pub enum Outcome {
    Constructed,
    Loaded(Seq<char>),
    Failed(Seq<char>),
}

/// Where a resolution stands, as the proofs see it.
pub enum Phase {
    Constructing,
    Loading,
    Done,
    Failed(Failure),
}

/// A resolution as the proofs see it: the distinct placeholders to resolve, the (text, value)
/// pairs resolved so far (the first `replacements.len()` placeholders), and the phase.
pub struct ResolutionState {
    pub tokens: Seq<Token>,
    pub replacements: Seq<(Seq<char>, Seq<char>)>,
    pub phase: Phase,
}

/// Stops the resolution with failure `f`.
pub open spec fn failed(reg: Set<SourceId>, st: ResolutionState, f: Failure) -> (
    Set<SourceId>,
    ResolutionState,
    Request,
) {
    (reg, ResolutionState { phase: Phase::Failed(f), ..st }, Request::Fail(f))
}

/// The decision for the next unresolved placeholder: done when none is left; load it when its
/// source has a loader; build the loader when the source is built-in; fail otherwise.
pub open spec fn decided(reg: Set<SourceId>, st: ResolutionState) -> (
    Set<SourceId>,
    ResolutionState,
    Request,
) {
    let pos = st.replacements.len();
    if pos >= st.tokens.len() {
        (reg, ResolutionState { phase: Phase::Done, ..st }, Request::Done)
    } else {
        let t = st.tokens[pos as int];
        let id = source_of(t.tag);
        if reg.contains(id) {
            (reg, ResolutionState { phase: Phase::Loading, ..st }, Request::Load(id, t.key))
        } else if is_builtin(id) {
            (reg, ResolutionState { phase: Phase::Constructing, ..st }, Request::Construct(id))
        } else {
            failed(reg, st, Failure::UnsupportedSource(t.tag))
        }
    }
}

/// The state in which a resolution of the template `s` starts, before its first decision.
pub open spec fn initial(s: Seq<char>) -> ResolutionState {
    ResolutionState {
        tokens: distinct(tokens(s)),
        replacements: Seq::empty(),
        phase: Phase::Constructing,
    }
}

/// One step of a resolution: the sources with a loader, the state and the outcome of the last
/// request give the new sources, the new state and the next request. An outcome that answers
/// no pending request changes nothing and repeats the request; the first failure ends the
/// resolution.
pub open spec fn next(reg: Set<SourceId>, st: ResolutionState, ev: Outcome) -> (
    Set<SourceId>,
    ResolutionState,
    Request,
) {
    let pos = st.replacements.len();
    match st.phase {
        Phase::Done => (reg, st, Request::Done),
        Phase::Failed(f) => (reg, st, Request::Fail(f)),
        Phase::Constructing => {
            if pos >= st.tokens.len() {
                decided(reg, st)
            } else {
                let id = source_of(st.tokens[pos as int].tag);
                match ev {
                    Outcome::Constructed => decided(reg.insert(id), st),
                    Outcome::Failed(cause) => failed(reg, st, Failure::Construct(id, cause)),
                    Outcome::Loaded(_) => (reg, st, Request::Construct(id)),
                }
            }
        },
        Phase::Loading => {
            if pos >= st.tokens.len() {
                decided(reg, st)
            } else {
                let t = st.tokens[pos as int];
                let id = source_of(t.tag);
                match ev {
                    Outcome::Loaded(v) => decided(
                        reg,
                        ResolutionState { replacements: st.replacements.push((t.text, v)), ..st },
                    ),
                    Outcome::Failed(cause) => failed(reg, st, Failure::Load(t.key, id, cause)),
                    Outcome::Constructed => (reg, st, Request::Load(id, t.key)),
                }
            }
        },
    }
}

/// Why resolving a template failed.
#[derive(Debug)]
pub enum ParseError {
    /// A placeholder names a custom source for which no loader was registered before parsing.
    UnsupportedSource { tag: String },
    /// The default loader of a built-in source could not be built.
    Construct { source: Source, cause: String },
    /// A loader failed to load a key.
    Load { key: String, source: Source, cause: String },
}

impl View for ParseError {
    type V = Failure;

    open spec fn view(&self) -> Failure {
        match self {
            ParseError::UnsupportedSource { tag } => Failure::UnsupportedSource(tag@),
            ParseError::Construct { source, cause } => Failure::Construct(source@, cause@),
            ParseError::Load { key, source, cause } => Failure::Load(key@, source@, cause@),
        }
    }
}

impl ParseError {
    /// A description of the failure for a diagnostic.
    pub fn message(&self) -> (r: String)
        ensures
            r@ == match self@ {
                Failure::UnsupportedSource(tag) => "Unsupported value source: "@ + tag
                    + ". If you're using a custom source, make sure you added the loader before parsing"@,
                Failure::Construct(id, cause) => "Failed to create the loader for source "@
                    + builtin_tag(id) + ": "@ + cause,
                Failure::Load(key, id, cause) => "Failed to load value '"@ + key + "' from source "@
                    + builtin_tag(id) + ": "@ + cause,
            },
    {
        match self {
            ParseError::UnsupportedSource { tag } => {
                let mut m = "Unsupported value source: ".to_owned();
                m.append(tag.as_str());
                m.append(
                    ". If you're using a custom source, make sure you added the loader before parsing",
                );
                m
            },
            ParseError::Construct { source, cause } => {
                let mut m = "Failed to create the loader for source ".to_owned();
                m.append(source.tag().as_str());
                m.append(": ");
                m.append(cause.as_str());
                m
            },
            ParseError::Load { key, source, cause } => {
                let mut m = "Failed to load value '".to_owned();
                m.append(key.as_str());
                m.append("' from source ");
                m.append(source.tag().as_str());
                m.append(": ");
                m.append(cause.as_str());
                m
            },
        }
    }

    /// An independent copy of this error.
    pub fn duplicate(&self) -> (r: ParseError)
        ensures
            r@ == self@,
    {
        match self {
            ParseError::UnsupportedSource { tag } => ParseError::UnsupportedSource {
                tag: tag.clone(),
            },
            ParseError::Construct { source, cause } => ParseError::Construct {
                source: source.duplicate(),
                cause: cause.clone(),
            },
            ParseError::Load { key, source, cause } => ParseError::Load {
                key: key.clone(),
                source: source.duplicate(),
                cause: cause.clone(),
            },
        }
    }
}

/// What the driver of a session has to do next.
#[derive(Debug)]
pub enum Action {
    /// Build the default loader of this built-in source; answer with `Constructed` or `Failed`.
    Construct(Source),
    /// Load `key` through the loader registered for `source`; answer with `Loaded` or `Failed`.
    Load { source: Source, key: String },
    /// Every placeholder is resolved: the replacements are complete.
    Done,
    /// The resolution failed; nothing is to be substituted.
    Fail(ParseError),
}

impl View for Action {
    type V = Request;

    open spec fn view(&self) -> Request {
        match self {
            Action::Construct(source) => Request::Construct(source@),
            Action::Load { source, key } => Request::Load(source@, key@),
            Action::Done => Request::Done,
            Action::Fail(e) => Request::Fail(e@),
        }
    }
}

/// The outcome of the last action, handed back to the session.
pub enum Event<L> {
    /// The default loader that was asked for.
    Constructed(L),
    /// The value that was asked for.
    Loaded(String),
    /// Why the action failed.
    Failed(String),
}

impl<L> View for Event<L> {
    type V = Outcome;

    open spec fn view(&self) -> Outcome {
        match self {
            Event::Constructed(_) => Outcome::Constructed,
            Event::Loaded(v) => Outcome::Loaded(v@),
            Event::Failed(c) => Outcome::Failed(c@),
        }
    }
}

/// Where a resolution stands.
#[derive(Debug)]
enum Stage {
    Constructing,
    Loading,
    Done,
    Failed(ParseError),
}

impl View for Stage {
    type V = Phase;

    closed spec fn view(&self) -> Phase {
        match self {
            Stage::Constructing => Phase::Constructing,
            Stage::Loading => Phase::Loading,
            Stage::Done => Phase::Done,
            Stage::Failed(e) => Phase::Failed(e@),
        }
    }
}

/// The progress of one resolution of a template: its distinct placeholders and the values
/// loaded so far. Created by [`Seed::begin`], advanced by [`Seed::step`].
#[derive(Debug)]
pub struct Resolution {
    placeholders: Vec<Placeholder>,
    replacements: Vec<(String, String)>,
    stage: Stage,
}

impl View for Resolution {
    type V = ResolutionState;

    closed spec fn view(&self) -> ResolutionState {
        ResolutionState {
            tokens: self.placeholders@.map_values(|p: Placeholder| p@),
            replacements: pairs_view(self.replacements@),
            phase: self.stage@,
        }
    }
}

impl Resolution {
    /// The (placeholder text, value) pairs resolved so far; all of them once the resolution is
    /// done.
    pub fn replacements(&self) -> (r: &Vec<(String, String)>)
        ensures
            pairs_view(r@) == self@.replacements,
    {
        &self.replacements
    }

    /// Whether every placeholder is resolved.
    pub fn is_done(&self) -> (r: bool)
        ensures
            r == (self@.phase is Done),
    {
        match self.stage {
            Stage::Done => true,
            _ => false,
        }
    }
}

/// The source of the placeholder that a resolution is at.
pub open spec fn current_source(st: ResolutionState) -> SourceId {
    source_of(st.tokens[st.replacements.len() as int].tag)
}

/// Whether a resolution waits for the default loader of the source it is at.
pub open spec fn awaits_loader(st: ResolutionState) -> bool {
    st.phase is Constructing && st.replacements.len() < st.tokens.len()
}

/// The loaders of `e`, by source: the first entry for a source wins.
pub open spec fn loader_map<L>(e: Seq<(Source, L)>) -> Map<SourceId, L>
    decreases e.len(),
{
    if e.len() == 0 {
        Map::empty()
    } else {
        loader_map(e.drop_first()).insert(e[0].0@, e[0].1)
    }
}

proof fn lemma_loader_first<L>(e: Seq<(Source, L)>, k: SourceId, j: int)
    requires
        0 <= j < e.len(),
        e[j].0@ == k,
        forall|i: int| 0 <= i < j ==> e[i].0@ != k,
    ensures
        loader_map(e).contains_key(k),
        loader_map(e)[k] == e[j].1,
    decreases j,
{
    if j > 0 {
        lemma_loader_first(e.drop_first(), k, j - 1);
    }
}

proof fn lemma_loader_absent<L>(e: Seq<(Source, L)>, k: SourceId)
    requires
        forall|i: int| 0 <= i < e.len() ==> e[i].0@ != k,
    ensures
        !loader_map(e).contains_key(k),
    decreases e.len(),
{
    if e.len() > 0 {
        lemma_loader_absent(e.drop_first(), k);
    }
}

proof fn lemma_loader_set_first<L>(e: Seq<(Source, L)>, j: int, x: (Source, L))
    requires
        0 <= j < e.len(),
        e[j].0@ == x.0@,
        forall|i: int| 0 <= i < j ==> e[i].0@ != x.0@,
    ensures
        loader_map(e.update(j, x)) == loader_map(e).insert(x.0@, x.1),
    decreases j,
{
    if j > 0 {
        lemma_loader_set_first(e.drop_first(), j - 1, x);
        assert(e.update(j, x).drop_first() =~= e.drop_first().update(j - 1, x));
        assert(loader_map(e.update(j, x)) =~= loader_map(e).insert(x.0@, x.1));
    } else {
        assert(e.update(j, x).drop_first() =~= e.drop_first());
        assert(loader_map(e.update(j, x)) =~= loader_map(e).insert(x.0@, x.1));
    }
}

proof fn lemma_loader_push_absent<L>(e: Seq<(Source, L)>, x: (Source, L))
    requires
        forall|i: int| 0 <= i < e.len() ==> e[i].0@ != x.0@,
    ensures
        loader_map(e.push(x)) == loader_map(e).insert(x.0@, x.1),
    decreases e.len(),
{
    if e.len() > 0 {
        lemma_loader_push_absent(e.drop_first(), x);
        assert(e.push(x).drop_first() =~= e.drop_first().push(x));
        assert(loader_map(e.push(x)) =~= loader_map(e).insert(x.0@, x.1));
    } else {
        assert(e.push(x).drop_first() =~= e);
        assert(loader_map(e.push(x)) =~= loader_map(e).insert(x.0@, x.1));
    }
}

/// A template and the loaders of one resolution session, keyed by source.
///
/// A loader is registered by the caller (custom sources, or an override of a built-in one) or
/// built on first use of a built-in source; once there, it serves every later placeholder of its
/// source in this session.
pub struct Seed<'a, L> {
    template: &'a str,
    loaders: Vec<(Source, L)>,
}

impl<'a, L> Seed<'a, L> {
    /// The template text.
    pub closed spec fn template_text(self) -> Seq<char> {
        self.template@
    }

    /// The loader of each source that has one.
    pub closed spec fn registry(self) -> Map<SourceId, L> {
        loader_map(self.loaders@)
    }

    /// A session for `template` with no loader yet.
    pub fn new(template: &'a str) -> (r: Seed<'a, L>)
        ensures
            r.template_text() == template@,
            r.registry() == Map::<SourceId, L>::empty(),
    {
        Seed { template, loaders: Vec::new() }
    }

    /// The template text.
    pub fn template(&self) -> (r: &'a str)
        ensures
            r@ == self.template_text(),
    {
        self.template
    }

    /// The index of the entry that holds the loader of `source`.
    fn find(&self, source: &Source) -> (r: Option<usize>)
        ensures
            match r {
                Some(j) => j < self.loaders@.len() && self.registry().contains_key(source@)
                    && self.registry()[source@] == self.loaders@[j as int].1
                    && self.loaders@[j as int].0@ == source@
                    && forall|i: int| 0 <= i < j ==> self.loaders@[i].0@ != source@,
                None => !self.registry().contains_key(source@)
                    && forall|i: int| 0 <= i < self.loaders@.len() ==> self.loaders@[i].0@ != source@,
            },
    {
        let mut j: usize = 0;
        while j < self.loaders.len()
            invariant
                j <= self.loaders@.len(),
                forall|i: int| 0 <= i < j ==> self.loaders@[i].0@ != source@,
            decreases self.loaders@.len() - j,
        {
            if self.loaders[j].0.same_as(source) {
                proof {
                    lemma_loader_first(self.loaders@, source@, j as int);
                }
                return Some(j);
            }
            j = j + 1;
        }
        proof {
            lemma_loader_absent(self.loaders@, source@);
        }
        None
    }

    /// Stores `loader` for `source`, replacing the loader that the source had.
    pub fn register(&mut self, source: Source, loader: L)
        ensures
            final(self).registry() == old(self).registry().insert(source@, loader),
            final(self).template_text() == old(self).template_text(),
    {
        match self.find(&source) {
            Some(j) => {
                proof {
                    lemma_loader_set_first(self.loaders@, j as int, (source, loader));
                }
                self.loaders.set(j, (source, loader));
            },
            None => {
                proof {
                    lemma_loader_push_absent(self.loaders@, (source, loader));
                }
                self.loaders.push((source, loader));
            },
        }
    }

    /// Registers `loader` for the custom source of tag `key`, replacing any loader it had.
    /// Placeholders with that tag then resolve through it.
    pub fn add_custom_loader(&mut self, key: String, loader: L)
        ensures
            final(self).registry() == old(self).registry().insert(SourceId::Custom(key@), loader),
            final(self).template_text() == old(self).template_text(),
    {
        self.register(Source::Custom(key), loader);
    }

    /// The loader for `source`: the registered one if there is one; `None` when the source is
    /// built-in and its default loader has yet to be built; an unsupported-source error naming
    /// the tag for a custom source without a loader, which has to be registered before parsing.
    pub fn get_loader(&self, source: &Source) -> (r: Result<Option<&L>, ParseError>)
        ensures
            match r {
                Ok(Some(l)) => self.registry().contains_key(source@) && *l == self.registry()[source@],
                Ok(None) => !self.registry().contains_key(source@) && is_builtin(source@),
                Err(e) => !self.registry().contains_key(source@) && !is_builtin(source@)
                    && e@ == Failure::UnsupportedSource(builtin_tag(source@)),
            },
    {
        match self.find(source) {
            Some(j) => Ok(Some(&self.loaders[j].1)),
            None => match source {
                Source::Custom(tag) => Err(ParseError::UnsupportedSource { tag: tag.clone() }),
                _ => Ok(None),
            },
        }
    }

    /// Takes the decision for the next unresolved placeholder of `res`.
    fn decide(&self, res: &mut Resolution) -> (a: Action)
        ensures
            ({
                let (reg, st, req) = decided(self.registry().dom(), old(res)@);
                final(res)@ == st && a@ == req
            }),
    {
        let pos = res.replacements.len();
        if pos >= res.placeholders.len() {
            res.stage = Stage::Done;
            return Action::Done;
        }
        let p = &res.placeholders[pos];
        let source = Source::from(p.tag.as_str());
        match self.get_loader(&source) {
            Ok(Some(_)) => {
                let key = p.key.clone();
                res.stage = Stage::Loading;
                Action::Load { source, key }
            },
            Ok(None) => {
                res.stage = Stage::Constructing;
                Action::Construct(source)
            },
            Err(e) => {
                res.stage = Stage::Failed(e.duplicate());
                Action::Fail(e)
            },
        }
    }

    /// Starts a resolution of the template: finds its distinct placeholders and takes the
    /// decision for the first one.
    pub fn begin(&self) -> (r: (Resolution, Action))
        ensures
            ({
                let (reg, st, req) = decided(self.registry().dom(), initial(self.template_text()));
                r.0@ == st && r.1@ == req
            }),
    {
        let mut res = Resolution {
            placeholders: placeholders(self.template),
            replacements: Vec::new(),
            stage: Stage::Constructing,
        };
        assert(pairs_view(res.replacements@) =~= Seq::<(Seq<char>, Seq<char>)>::empty());
        let a = self.decide(&mut res);
        (res, a)
    }

    /// Advances `res` with the outcome of the action it asked for last, and returns the next
    /// action. A built default loader is registered for its source; a loaded value is recorded
    /// for the placeholder's full text; the first failure ends the resolution.
    pub fn step(&mut self, res: &mut Resolution, event: Event<L>) -> (a: Action)
        ensures
            ({
                let (reg, st, req) = next(old(self).registry().dom(), old(res)@, event@);
                &&& final(res)@ == st
                &&& a@ == req
                &&& final(self).registry().dom() == reg
            }),
            final(self).registry() == (match event {
                Event::Constructed(l) => if awaits_loader(old(res)@) {
                    old(self).registry().insert(current_source(old(res)@), l)
                } else {
                    old(self).registry()
                },
                _ => old(self).registry(),
            }),
            final(self).template_text() == old(self).template_text(),
    {
        match &res.stage {
            Stage::Done => {
                return Action::Done;
            },
            Stage::Failed(e) => {
                return Action::Fail(e.duplicate());
            },
            _ => {},
        }
        let pos = res.replacements.len();
        if pos >= res.placeholders.len() {
            return self.decide(res);
        }
        let loading = match &res.stage {
            Stage::Loading => true,
            _ => false,
        };
        let source = Source::from(res.placeholders[pos].tag.as_str());
        if !loading {
            match event {
                Event::Constructed(l) => {
                    self.register(source, l);
                    self.decide(res)
                },
                Event::Failed(cause) => {
                    let e = ParseError::Construct { source, cause };
                    res.stage = Stage::Failed(e.duplicate());
                    Action::Fail(e)
                },
                Event::Loaded(_) => Action::Construct(source),
            }
        } else {
            let key = res.placeholders[pos].key.clone();
            match event {
                Event::Loaded(v) => {
                    let text = res.placeholders[pos].text.clone();
                    let ghost before = res@;
                    res.replacements.push((text, v));
                    assert(pairs_view(res.replacements@) =~= before.replacements.push(
                        (before.tokens[pos as int].text, v@),
                    ));
                    self.decide(res)
                },
                Event::Failed(cause) => {
                    let e = ParseError::Load { key, source, cause };
                    res.stage = Stage::Failed(e.duplicate());
                    Action::Fail(e)
                },
                Event::Constructed(_) => Action::Load { source, key },
            }
        }
    }

    /// The template with every placeholder occurrence replaced with its value in `res`, once
    /// every placeholder is resolved: a failed or unfinished resolution gives no output.
    pub fn render(&self, res: &Resolution) -> (r: String)
        requires
            res@.phase is Done,
        ensures
            r@ == rendered(self.template_text(), replacement_map(res@.replacements)),
    {
        substitute(self.template, res.replacements())
    }
}

} // verus!
