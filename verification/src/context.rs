//! The asset context and transition pipeline.
//!
//! A context is the resolution authority for one scope: a transitions
//! table, a base directory, an environment, and the rule configuration,
//! with at most one active transition. Contexts are immutable values;
//! every `with_*` operation derives a new context with one field replaced.
//! Processing an asset runs it through the active transition's source and
//! environment hooks, the module factory, and the transition's module
//! hook.

use vstd::prelude::*;
use crate::paths::FsPath;
use crate::environment::Environment;
use crate::module_options::ModuleOptionsContext;
use crate::module_options::ModuleRuleView;
use crate::module_options::copy_options;
use crate::factory::Asset;
use crate::factory::AssetKindView;
use crate::factory::AssetView;
use crate::factory::CoreError;
use crate::factory::ModuleConstructionView;
use crate::factory::copy_asset;
use crate::factory::module;
use crate::factory::module_result_view;
use crate::factory::spec_module;

verus! {

/// A named processing hook applied when resolution crosses an environment
/// boundary: it may substitute the content of a source, redirect the
/// environment the module is built for, and mark the produced module.
#[derive(Debug, Clone, Copy, PartialEq, Eq)]
pub struct Transition {
    /// Replacement content for sources crossing the boundary.
    pub source_content_override: Option<u64>,
    /// The environment the subtree behind the boundary compiles for.
    pub target_environment: Option<Environment>,
    /// Mark recorded on modules produced across the boundary.
    pub module_marker: Option<u64>,
}

/// A recoverable, diagnostic-worthy condition surfaced to the caller.
#[derive(Debug, Clone, Copy, PartialEq, Eq, Structural)]
pub enum Diagnostic {
    /// A transition was requested under a name the table does not hold.
    UnknownTransition(u64),
}

/// Options handed to the external resolver: the base directory, the
/// environment, and whether TypeScript-aware resolution is wanted.
#[derive(Debug, Clone, PartialEq, Eq)]
pub struct ResolveOptions {
    pub context_path: FsPath,
    pub environment: Environment,
    pub typescript: bool,
}

/// Ghost mirror of `ResolveOptions`.
#[verifier::ext_equal]
pub struct ResolveOptionsView {
    pub context_path: Seq<u64>,
    pub environment: Environment,
    pub typescript: bool,
}

impl View for ResolveOptions {
    type V = ResolveOptionsView;

    open spec fn view(&self) -> ResolveOptionsView {
        ResolveOptionsView {
            context_path: self.context_path@,
            environment: self.environment,
            typescript: self.typescript,
        }
    }
}

/// A reference attached to a resolve result.
#[derive(Debug, Clone, PartialEq, Eq)]
pub enum AssetReference {
    /// An opaque reference carried through unchanged.
    Plain(u64),
    /// The synthetic types reference that lets type-only resolution
    /// participate in the dependency graph.
    TypescriptTypes { context_path: FsPath, request: u64 },
}

/// Ghost mirror of `AssetReference`.
#[verifier::ext_equal]
pub enum AssetReferenceView {
    Plain(u64),
    TypescriptTypes { context_path: Seq<u64>, request: u64 },
}

impl View for AssetReference {
    type V = AssetReferenceView;

    open spec fn view(&self) -> AssetReferenceView {
        match self {
            AssetReference::Plain(id) => AssetReferenceView::Plain(*id),
            AssetReference::TypescriptTypes { context_path, request } => (
            AssetReferenceView::TypescriptTypes { context_path: context_path@, request: *request }
            ),
        }
    }
}

/// The outcome of resolving an import request: the resolved assets plus
/// any attached references.
#[derive(Debug, Clone, PartialEq, Eq)]
pub struct ResolveResult {
    pub assets: Vec<Asset>,
    pub references: Vec<AssetReference>,
}

/// A sequence of assets as seen by specifications.
pub open spec fn assets_view(assets: Seq<Asset>) -> Seq<AssetView> {
    assets.map_values(|a: Asset| a@)
}

/// A sequence of references as seen by specifications.
pub open spec fn references_view(references: Seq<AssetReference>) -> Seq<AssetReferenceView> {
    references.map_values(|r: AssetReference| r@)
}

/// Ghost mirror of `ResolveResult`.
#[verifier::ext_equal]
pub struct ResolveResultView {
    pub assets: Seq<AssetView>,
    pub references: Seq<AssetReferenceView>,
}

impl View for ResolveResult {
    type V = ResolveResultView;

    open spec fn view(&self) -> ResolveResultView {
        ResolveResultView {
            assets: assets_view(self.assets@),
            references: references_view(self.references@),
        }
    }
}

/// The resolution authority: transitions table, base directory,
/// environment, rule configuration, and the active transition, if any.
#[derive(Debug, Clone, PartialEq, Eq)]
pub struct ModuleAssetContext {
    pub transitions: Vec<(u64, Transition)>,
    pub context_path: FsPath,
    pub environment: Environment,
    pub module_options_context: ModuleOptionsContext,
    pub transition: Option<Transition>,
}

/// Ghost mirror of `ModuleAssetContext`.
#[verifier::ext_equal]
pub struct ModuleAssetContextView {
    pub transitions: Seq<(u64, Transition)>,
    pub context_path: Seq<u64>,
    pub environment: Environment,
    pub module_options: Seq<ModuleRuleView>,
    pub transition: Option<Transition>,
}

impl View for ModuleAssetContext {
    type V = ModuleAssetContextView;

    open spec fn view(&self) -> ModuleAssetContextView {
        ModuleAssetContextView {
            transitions: self.transitions@,
            context_path: self.context_path@,
            environment: self.environment,
            module_options: self.module_options_context@,
            transition: self.transition,
        }
    }
}

/// What the source hook of a transition does: it substitutes the content
/// of a source asset crossing the boundary and passes constructed modules
/// through untouched.
pub open spec fn spec_transition_source(t: Transition, a: AssetView) -> AssetView {
    match t.source_content_override {
        Option::Some(c) => if a.kind is Source {
            AssetView { content: c, ..a }
        } else {
            a
        },
        Option::None => a,
    }
}

/// What the environment hook of a transition does: it redirects to the
/// boundary's target environment when one is declared.
pub open spec fn spec_transition_environment(t: Transition, env: Environment) -> Environment {
    match t.target_environment {
        Option::Some(e) => e,
        Option::None => env,
    }
}

/// What the module hook of a transition does: it records the transition's
/// mark on a constructed module and passes anything else through.
pub open spec fn spec_transition_module(t: Transition, m: AssetView) -> AssetView {
    match m.kind {
        AssetKindView::Module(c) => AssetView {
            kind: AssetKindView::Module(ModuleConstructionView { marker: t.module_marker, ..c }),
            ..m
        },
        AssetKindView::Source => m,
    }
}

/// What processing an asset through a context produces: the three-stage
/// transition hooks around the module factory when a transition is
/// active, the factory alone otherwise.
pub open spec fn spec_process(ctx: ModuleAssetContextView, a: AssetView) -> Result<
    AssetView,
    CoreError,
> {
    match ctx.transition {
        Option::Some(t) => {
            let src = spec_transition_source(t, a);
            let env = spec_transition_environment(t, ctx.environment);
            match spec_module(src, env, ctx.module_options) {
                Result::Ok(m) => Result::Ok(spec_transition_module(t, m)),
                Result::Err(e) => Result::Err(e),
            }
        },
        Option::None => spec_module(a, ctx.environment, ctx.module_options),
    }
}

/// Processing every asset of a list through a context: the processed
/// assets in order, or the first fatal error.
pub open spec fn spec_process_list(ctx: ModuleAssetContextView, assets: Seq<AssetView>) -> Result<
    Seq<AssetView>,
    CoreError,
>
    decreases assets.len(),
{
    if assets.len() == 0 {
        Result::Ok(Seq::empty())
    } else {
        match spec_process_list(ctx, assets.drop_last()) {
            Result::Ok(s) => match spec_process(ctx, assets.last()) {
                Result::Ok(m) => Result::Ok(s.push(m)),
                Result::Err(e) => Result::Err(e),
            },
            Result::Err(e) => Result::Err(e),
        }
    }
}

/// The transition a table holds under a name: the first entry, if any.
pub open spec fn spec_transition_lookup(table: Seq<(u64, Transition)>, name: u64) -> Option<
    Transition,
>
    decreases table.len(),
{
    if table.len() == 0 {
        Option::None
    } else if table.first().0 == name {
        Option::Some(table.first().1)
    } else {
        spec_transition_lookup(table.drop_first(), name)
    }
}

/// How a table with no earlier entry under `name` reads at entry `i`.
proof fn lemma_transition_lookup_at(table: Seq<(u64, Transition)>, name: u64, i: int)
    requires
        0 <= i < table.len(),
        table[i].0 == name,
        forall|j: int| 0 <= j < i ==> table[j].0 != name,
    ensures
        spec_transition_lookup(table, name) == Option::Some(table[i].1),
    decreases i,
{
    if i > 0 {
        assert(forall|j: int| 0 <= j < i - 1 ==> table.drop_first()[j] == table[j + 1]);
        lemma_transition_lookup_at(table.drop_first(), name, i - 1);
    }
}

/// A table with no entry under `name` reads as `None`.
proof fn lemma_transition_lookup_none(table: Seq<(u64, Transition)>, name: u64)
    requires
        forall|j: int| 0 <= j < table.len() ==> (#[trigger] table[j]).0 != name,
    ensures
        spec_transition_lookup(table, name) is None,
    decreases table.len(),
{
    if table.len() > 0 {
        assert(forall|j: int|
            0 <= j < table.len() - 1 ==> (#[trigger] table.drop_first()[j]) == table[j + 1]);
        lemma_transition_lookup_none(table.drop_first(), name);
    }
}

/// Resolution options for an environment without TypeScript support.
pub fn resolve_options(context_path: &FsPath, environment: &Environment) -> (r: ResolveOptions)
    ensures
        r@ == (ResolveOptionsView {
            context_path: context_path@,
            environment: *environment,
            typescript: false,
        }),
{
    let r = ResolveOptions {
        context_path: context_path.duplicate(),
        environment: *environment,
        typescript: false,
    };
    assert(r@ =~= (ResolveOptionsView {
        context_path: context_path@,
        environment: *environment,
        typescript: false,
    }));
    r
}

/// Resolution options for a TypeScript-enabled environment.
pub fn typescript_resolve_options(context_path: &FsPath, environment: &Environment) -> (r:
    ResolveOptions)
    ensures
        r@ == (ResolveOptionsView {
            context_path: context_path@,
            environment: *environment,
            typescript: true,
        }),
{
    let r = ResolveOptions {
        context_path: context_path.duplicate(),
        environment: *environment,
        typescript: true,
    };
    assert(r@ =~= (ResolveOptionsView {
        context_path: context_path@,
        environment: *environment,
        typescript: true,
    }));
    r
}

/// An independently owned reference with the same view.
pub fn copy_reference(r: &AssetReference) -> (c: AssetReference)
    ensures
        c@ == r@,
{
    match r {
        AssetReference::Plain(id) => AssetReference::Plain(*id),
        AssetReference::TypescriptTypes { context_path, request } => (
        AssetReference::TypescriptTypes { context_path: context_path.duplicate(), request: *request
        }),
    }
}

/// An independently owned transitions table with the same view.
pub fn copy_transitions(table: &Vec<(u64, Transition)>) -> (r: Vec<(u64, Transition)>)
    ensures
        r@ == table@,
{
    let mut r: Vec<(u64, Transition)> = Vec::new();
    let mut i: usize = 0;
    while i < table.len()
        invariant
            i <= table.len(),
            r@ == table@.subrange(0, i as int),
        decreases table.len() - i,
    {
        r.push(table[i]);
        i = i + 1;
    }
    assert(r@ =~= table@);
    r
}

impl Transition {
    /// The source hook: substitutes the content of a source crossing the
    /// boundary.
    pub fn process_source(&self, asset: Asset) -> (r: Asset)
        ensures
            r@ == spec_transition_source(*self, asset@),
    {
        let mut a = asset;
        match self.source_content_override {
            Option::Some(c) => {
                if let crate::factory::AssetKind::Source = &a.kind {
                    a.content = c;
                }
            },
            Option::None => {},
        }
        a
    }

    /// The environment hook: redirects to the boundary's target
    /// environment.
    pub fn process_environment(&self, environment: Environment) -> (r: Environment)
        ensures
            r == spec_transition_environment(*self, environment),
    {
        match self.target_environment {
            Option::Some(e) => e,
            Option::None => environment,
        }
    }

    /// The module hook: records the transition's mark on a constructed
    /// module.
    pub fn process_module(&self, m: Asset) -> (r: Asset)
        ensures
            r@ == spec_transition_module(*self, m@),
    {
        match m.kind {
            crate::factory::AssetKind::Module(c) => {
                let mut c = c;
                c.marker = self.module_marker;
                let r = Asset {
                    path: m.path,
                    content: m.content,
                    kind: crate::factory::AssetKind::Module(c),
                };
                assert(r@ =~= spec_transition_module(*self, m@));
                r
            },
            crate::factory::AssetKind::Source => Asset {
                path: m.path,
                content: m.content,
                kind: crate::factory::AssetKind::Source,
            },
        }
    }
}

impl ModuleAssetContext {
    /// A fresh context with no active transition.
    pub fn new(
        transitions: Vec<(u64, Transition)>,
        context_path: FsPath,
        environment: Environment,
        module_options_context: ModuleOptionsContext,
    ) -> (c: ModuleAssetContext)
        ensures
            c@ == (ModuleAssetContextView {
                transitions: transitions@,
                context_path: context_path@,
                environment,
                module_options: module_options_context@,
                transition: Option::None,
            }),
    {
        ModuleAssetContext {
            transitions,
            context_path,
            environment,
            module_options_context,
            transition: None,
        }
    }

    /// A fresh context with the given transition active.
    pub fn new_transition(
        transitions: Vec<(u64, Transition)>,
        context_path: FsPath,
        environment: Environment,
        module_options_context: ModuleOptionsContext,
        transition: Transition,
    ) -> (c: ModuleAssetContext)
        ensures
            c@ == (ModuleAssetContextView {
                transitions: transitions@,
                context_path: context_path@,
                environment,
                module_options: module_options_context@,
                transition: Option::Some(transition),
            }),
    {
        ModuleAssetContext {
            transitions,
            context_path,
            environment,
            module_options_context,
            transition: Some(transition),
        }
    }

    /// The current resolution base directory.
    pub fn context_path(&self) -> (p: &FsPath)
        ensures
            p@ == self.context_path@,
    {
        &self.context_path
    }

    /// The active environment.
    pub fn environment(&self) -> (e: Environment)
        ensures
            e == self.environment,
    {
        self.environment
    }

    /// Resolution options appropriate to the environment: the
    /// TypeScript-aware variant exactly when TypeScript is enabled.
    pub fn resolve_options(&self) -> (r: ResolveOptions)
        ensures
            r@ == (ResolveOptionsView {
                context_path: self.context_path@,
                environment: self.environment,
                typescript: self.environment.typescript_enabled,
            }),
    {
        if self.environment.is_typescript_enabled() {
            typescript_resolve_options(&self.context_path, &self.environment)
        } else {
            resolve_options(&self.context_path, &self.environment)
        }
    }

    /// The central dispatch: the active transition's hooks around the
    /// module factory, or the factory alone without one.
    pub fn process(&self, asset: &Asset) -> (r: Result<Asset, CoreError>)
        ensures
            module_result_view(r) == spec_process(self@, asset@),
    {
        match &self.transition {
            Option::Some(t) => {
                let src = t.process_source(copy_asset(asset));
                let env = t.process_environment(self.environment);
                match module(&src, &env, &self.module_options_context) {
                    Result::Ok(m) => Ok(t.process_module(m)),
                    Result::Err(e) => Err(e),
                }
            },
            Option::None => module(asset, &self.environment, &self.module_options_context),
        }
    }

    /// Processes every asset inside an already computed resolve result,
    /// keeping its references.
    pub fn process_resolve_result(&self, result: &ResolveResult) -> (r: Result<
        ResolveResult,
        CoreError,
    >)
        ensures
            match r {
                Result::Ok(rr) => {
                    &&& spec_process_list(self@, assets_view(result.assets@)) == Result::<
                        Seq<AssetView>,
                        CoreError,
                    >::Ok(assets_view(rr.assets@))
                    &&& references_view(rr.references@) == references_view(result.references@)
                },
                Result::Err(e) => spec_process_list(self@, assets_view(result.assets@))
                    == Result::<Seq<AssetView>, CoreError>::Err(e),
            },
    {
        let assets = self.process_assets(&result.assets);
        match assets {
            Result::Ok(assets) => {
                let references = self.copy_references(&result.references);
                Ok(ResolveResult { assets, references })
            },
            Result::Err(e) => Err(e),
        }
    }

    /// Resolution of an import request: every asset the external resolver
    /// found is processed through this context, and under a
    /// TypeScript-enabled environment exactly one synthetic types
    /// reference for the request is attached to the result.
    pub fn resolve_asset(&self, context_path: &FsPath, request: u64, resolution: &ResolveResult)
        -> (r: Result<ResolveResult, CoreError>)
        ensures
            match r {
                Result::Ok(rr) => {
                    &&& spec_process_list(self@, assets_view(resolution.assets@)) == Result::<
                        Seq<AssetView>,
                        CoreError,
                    >::Ok(assets_view(rr.assets@))
                    &&& references_view(rr.references@) == references_view(resolution.references@)
                        + (if self.environment.typescript_enabled {
                        seq![
                            AssetReferenceView::TypescriptTypes {
                                context_path: context_path@,
                                request,
                            },
                        ]
                    } else {
                        Seq::<AssetReferenceView>::empty()
                    })
                },
                Result::Err(e) => spec_process_list(self@, assets_view(resolution.assets@))
                    == Result::<Seq<AssetView>, CoreError>::Err(e),
            },
    {
        let assets = self.process_assets(&resolution.assets);
        match assets {
            Result::Ok(assets) => {
                let mut references = self.copy_references(&resolution.references);
                if self.environment.is_typescript_enabled() {
                    references.push(
                        AssetReference::TypescriptTypes {
                            context_path: context_path.duplicate(),
                            request,
                        },
                    );
                }
                proof {
                    if self.environment.typescript_enabled {
                        assert(references_view(references@) =~= references_view(
                            resolution.references@,
                        ) + seq![
                            AssetReferenceView::TypescriptTypes {
                                context_path: context_path@,
                                request,
                            },
                        ]);
                    } else {
                        assert(references_view(references@) =~= references_view(
                            resolution.references@,
                        ) + Seq::<AssetReferenceView>::empty());
                    }
                }
                Ok(ResolveResult { assets, references })
            },
            Result::Err(e) => Err(e),
        }
    }

    /// Processes a list of assets in order, stopping at the first fatal
    /// error.
    fn process_assets(&self, assets: &Vec<Asset>) -> (r: Result<Vec<Asset>, CoreError>)
        ensures
            match r {
                Result::Ok(out) => spec_process_list(self@, assets_view(assets@)) == Result::<
                    Seq<AssetView>,
                    CoreError,
                >::Ok(assets_view(out@)),
                Result::Err(e) => spec_process_list(self@, assets_view(assets@)) == Result::<
                    Seq<AssetView>,
                    CoreError,
                >::Err(e),
            },
    {
        let mut out: Vec<Asset> = Vec::new();
        let mut i: usize = 0;
        proof {
            assert(assets_view(assets@).subrange(0, 0) =~= Seq::<AssetView>::empty());
            assert(assets_view(out@) =~= Seq::<AssetView>::empty());
        }
        while i < assets.len()
            invariant
                i <= assets.len(),
                spec_process_list(self@, assets_view(assets@).subrange(0, i as int)) == Result::<
                    Seq<AssetView>,
                    CoreError,
                >::Ok(assets_view(out@)),
            decreases assets.len() - i,
        {
            proof {
                assert(assets_view(assets@)[i as int] == assets@[i as int]@);
            }
            let ghost prefix = assets_view(assets@).subrange(0, i as int);
            let ghost out_prev = out@;
            match self.process(&assets[i]) {
                Result::Ok(m) => {
                    let ghost mv = m@;
                    out.push(m);
                    proof {
                        lemma_process_list_extend_ok(self@, assets_view(assets@), i as int, prefix);
                        assert(assets_view(out@) =~= assets_view(out_prev).push(mv));
                    }
                },
                Result::Err(e) => {
                    proof {
                        lemma_process_list_extend_err(self@, assets_view(assets@), i as int, e);
                    }
                    return Err(e);
                },
            }
            i = i + 1;
        }
        proof {
            assert(assets_view(assets@).subrange(0, assets@.len() as int) =~= assets_view(
                assets@,
            ));
        }
        Ok(out)
    }

    /// Copies a reference list.
    fn copy_references(&self, references: &Vec<AssetReference>) -> (r: Vec<AssetReference>)
        ensures
            references_view(r@) == references_view(references@),
    {
        let mut r: Vec<AssetReference> = Vec::new();
        let mut i: usize = 0;
        while i < references.len()
            invariant
                i <= references.len(),
                r@.len() == i,
                forall|j: int| 0 <= j < i ==> r@[j]@ == references@[j]@,
            decreases references.len() - i,
        {
            r.push(copy_reference(&references[i]));
            i = i + 1;
        }
        assert(references_view(r@) =~= references_view(references@));
        r
    }

    /// A derived context resolving from another base directory: one
    /// field replaced, every other field copied, the active transition
    /// among them.
    pub fn with_context_path(&self, path: &FsPath) -> (c: ModuleAssetContext)
        ensures
            c@ == (ModuleAssetContextView { context_path: path@, ..self@ }),
    {
        let c = ModuleAssetContext {
            transitions: copy_transitions(&self.transitions),
            context_path: path.duplicate(),
            environment: self.environment,
            module_options_context: copy_options(&self.module_options_context),
            transition: self.transition,
        };
        assert(c@ =~= (ModuleAssetContextView { context_path: path@, ..self@ }));
        c
    }

    /// A derived context for another environment: one field replaced,
    /// every other field copied, the active transition among them.
    pub fn with_environment(&self, environment: &Environment) -> (c: ModuleAssetContext)
        ensures
            c@ == (ModuleAssetContextView { environment: *environment, ..self@ }),
    {
        let c = ModuleAssetContext {
            transitions: copy_transitions(&self.transitions),
            context_path: self.context_path.duplicate(),
            environment: *environment,
            module_options_context: copy_options(&self.module_options_context),
            transition: self.transition,
        };
        assert(c@ =~= (ModuleAssetContextView { environment: *environment, ..self@ }));
        c
    }

    /// A derived context with the named transition active. An unknown
    /// name yields an equivalent context with no transition, surfaced as
    /// a diagnostic rather than a failure.
    pub fn with_transition(&self, transition_name: u64) -> (r: (
        ModuleAssetContext,
        Option<Diagnostic>,
    ))
        ensures
            r.0@ == (ModuleAssetContextView {
                transition: spec_transition_lookup(self@.transitions, transition_name),
                ..self@
            }),
            r.1 == (match spec_transition_lookup(self@.transitions, transition_name) {
                Option::Some(_) => Option::<Diagnostic>::None,
                Option::None => Option::Some(Diagnostic::UnknownTransition(transition_name)),
            }),
    {
        let mut found: Option<Transition> = None;
        let mut i: usize = 0;
        while i < self.transitions.len()
            invariant
                i <= self.transitions.len(),
                match found {
                    Option::Some(t) => exists|k: int|
                        {
                            &&& 0 <= k < i
                            &&& (#[trigger] self.transitions@[k]).0 == transition_name
                            &&& self.transitions@[k].1 == t
                            &&& forall|j: int|
                                0 <= j < k ==> self.transitions@[j].0 != transition_name
                        },
                    Option::None => forall|j: int|
                        0 <= j < i ==> (#[trigger] self.transitions@[j]).0 != transition_name,
                },
            decreases self.transitions.len() - i,
        {
            if found.is_none() && self.transitions[i].0 == transition_name {
                found = Some(self.transitions[i].1);
            }
            i = i + 1;
        }
        proof {
            match found {
                Option::Some(t) => {
                    let k = choose|k: int|
                        {
                            &&& 0 <= k < self.transitions@.len()
                            &&& (#[trigger] self.transitions@[k]).0 == transition_name
                            &&& self.transitions@[k].1 == t
                            &&& forall|j: int|
                                0 <= j < k ==> self.transitions@[j].0 != transition_name
                        };
                    lemma_transition_lookup_at(self.transitions@, transition_name, k);
                },
                Option::None => {
                    lemma_transition_lookup_none(self.transitions@, transition_name);
                },
            }
        }
        match found {
            Option::Some(t) => {
                let c = ModuleAssetContext::new_transition(
                    copy_transitions(&self.transitions),
                    self.context_path.duplicate(),
                    self.environment,
                    copy_options(&self.module_options_context),
                    t,
                );
                assert(c@ =~= (ModuleAssetContextView {
                    transition: spec_transition_lookup(self@.transitions, transition_name),
                    ..self@
                }));
                (c, None)
            },
            Option::None => {
                let c = ModuleAssetContext::new(
                    copy_transitions(&self.transitions),
                    self.context_path.duplicate(),
                    self.environment,
                    copy_options(&self.module_options_context),
                );
                assert(c@ =~= (ModuleAssetContextView {
                    transition: spec_transition_lookup(self@.transitions, transition_name),
                    ..self@
                }));
                (c, Some(Diagnostic::UnknownTransition(transition_name)))
            },
        }
    }
}

/// Extending a successfully processed prefix by one more successful asset.
proof fn lemma_process_list_extend_ok(
    ctx: ModuleAssetContextView,
    assets: Seq<AssetView>,
    i: int,
    prefix: Seq<AssetView>,
)
    requires
        0 <= i < assets.len(),
        prefix == assets.subrange(0, i),
        spec_process_list(ctx, prefix) is Ok,
        spec_process(ctx, assets[i]) is Ok,
    ensures
        spec_process_list(ctx, assets.subrange(0, i + 1)) matches Result::Ok(s) && s
            == spec_process_list(ctx, prefix)->Ok_0.push(spec_process(ctx, assets[i])->Ok_0),
{
    assert(assets.subrange(0, i + 1).drop_last() =~= prefix);
    assert(assets.subrange(0, i + 1).last() == assets[i]);
}

/// Extending a successfully processed prefix by a failing asset.
proof fn lemma_process_list_extend_err(
    ctx: ModuleAssetContextView,
    assets: Seq<AssetView>,
    i: int,
    e: CoreError,
)
    requires
        0 <= i < assets.len(),
        spec_process_list(ctx, assets.subrange(0, i)) is Ok,
        spec_process(ctx, assets[i]) == Result::<AssetView, CoreError>::Err(e),
    ensures
        spec_process_list(ctx, assets) == Result::<Seq<AssetView>, CoreError>::Err(e),
    decreases assets.len() - i,
{
    if i == assets.len() - 1 {
        assert(assets.subrange(0, i) =~= assets.drop_last());
        assert(assets.last() == assets[i]);
    } else {
        assert(spec_process_list(ctx, assets.subrange(0, i + 1)) == Result::<
            Seq<AssetView>,
            CoreError,
        >::Err(e)) by {
            assert(assets.subrange(0, i + 1).drop_last() =~= assets.subrange(0, i));
            assert(assets.subrange(0, i + 1).last() == assets[i]);
        }
        lemma_process_list_err_propagates(ctx, assets, i + 1, e);
    }
}

/// A fatal error in a prefix propagates to the whole list.
proof fn lemma_process_list_err_propagates(
    ctx: ModuleAssetContextView,
    assets: Seq<AssetView>,
    i: int,
    e: CoreError,
)
    requires
        0 <= i <= assets.len(),
        spec_process_list(ctx, assets.subrange(0, i)) == Result::<Seq<AssetView>, CoreError>::Err(
            e,
        ),
    ensures
        spec_process_list(ctx, assets) == Result::<Seq<AssetView>, CoreError>::Err(e),
    decreases assets.len() - i,
{
    if i == assets.len() {
        assert(assets.subrange(0, i) =~= assets);
    } else {
        assert(assets.subrange(0, i + 1).drop_last() =~= assets.subrange(0, i));
        lemma_process_list_err_propagates(ctx, assets, i + 1, e);
    }
}


/// The number of synthetic types references for one request held by a
/// reference list.
pub open spec fn count_types_references(
    references: Seq<AssetReferenceView>,
    context_path: Seq<u64>,
    request: u64,
) -> nat
    decreases references.len(),
{
    if references.len() == 0 {
        0
    } else {
        count_types_references(references.drop_last(), context_path, request) + (
        if references.last() == (AssetReferenceView::TypescriptTypes { context_path, request }) {
            1nat
        } else {
            0nat
        })
    }
}

/// Law: a TypeScript-enabled resolution attaches exactly one synthetic
/// types reference for its request. The attached references are a pure
/// function of the context, the request and the resolver's answer, so
/// repeated resolutions of the same request yield the same references and
/// never accumulate duplicates.
pub proof fn lemma_single_types_reference(
    before: Seq<AssetReferenceView>,
    after: Seq<AssetReferenceView>,
    context_path: Seq<u64>,
    request: u64,
)
    requires
        count_types_references(before, context_path, request) == 0,
        after == before + seq![
            AssetReferenceView::TypescriptTypes { context_path, request },
        ],
    ensures
        count_types_references(after, context_path, request) == 1,
{
    assert(after.drop_last() =~= before);
    assert(after.last() == (AssetReferenceView::TypescriptTypes { context_path, request }));
}

/// Law: processing is idempotent under structurally equal contexts. An
/// asset a context has produced is mapped to itself by any equal context:
/// re-processing a module or a passed-through source is a no-op.
pub proof fn lemma_process_idempotent(
    ctx1: ModuleAssetContextView,
    ctx2: ModuleAssetContextView,
    a: AssetView,
    m: AssetView,
)
    requires
        ctx1 == ctx2,
        spec_process(ctx1, a) == Result::<AssetView, CoreError>::Ok(m),
    ensures
        spec_process(ctx2, m) == Result::<AssetView, CoreError>::Ok(m),
{
    match ctx1.transition {
        Option::Some(t) => {
            let src = spec_transition_source(t, a);
            let env = spec_transition_environment(t, ctx1.environment);
            match spec_module(src, env, ctx1.module_options) {
                Result::Ok(m0) => {
                    assert(m == spec_transition_module(t, m0));
                    match m.kind {
                        AssetKindView::Module(c) => {
                            assert(c.marker == t.module_marker);
                            assert(spec_transition_source(t, m) == m);
                            assert(spec_module(m, env, ctx1.module_options) == Result::<
                                AssetView,
                                CoreError,
                            >::Ok(m));
                            assert(spec_transition_module(t, m) =~= m);
                        },
                        AssetKindView::Source => {
                            assert(m == m0);
                            assert(m0 == src);
                            assert(a.kind is Source);
                            assert(m.path == a.path);
                            assert(spec_transition_source(t, m) =~= m);
                            assert(spec_module(m, env, ctx1.module_options) == Result::<
                                AssetView,
                                CoreError,
                            >::Ok(m));
                            assert(spec_transition_module(t, m) == m);
                        },
                    }
                },
                Result::Err(_) => {
                    assert(false);
                },
            }
        },
        Option::None => {
            match m.kind {
                AssetKindView::Module(_) => {},
                AssetKindView::Source => {
                    assert(m == a);
                },
            }
        },
    }
}

} // verus!
