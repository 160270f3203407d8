//! The module factory.
//!
//! Given a source asset, an environment and the rule configuration, the
//! factory resolves the effective module type for the source's path and
//! wires the source to the matching module constructor: the result records
//! the selected kind, its transform list, and the nested resolution scope
//! (the source's parent directory, with the environment upgraded to
//! TypeScript-aware resolution for the TypeScript kinds). A `Raw`
//! classification passes the source through unchanged, and re-processing
//! an already constructed module is a no-op, so the factory is idempotent.

use vstd::prelude::*;
use crate::paths::FsPath;
use crate::environment::Environment;
use crate::environment::spec_escalate;
use crate::module_options::ModuleOptionsContext;
use crate::module_options::ModuleRuleEffect;
use crate::module_options::ModuleRuleEffectKey;
use crate::module_options::ModuleRuleEffectView;
use crate::module_options::ModuleRuleView;
use crate::module_options::ModuleType;
use crate::module_options::ModuleTypeView;
use crate::module_options::merged_effect;
use crate::module_options::lookup_effect;
use crate::module_options::resolved_effects;
use crate::util::copy_u64_vec;

verus! {

/// The concrete module constructor a classified source is wired to.
#[derive(Debug, Clone, Copy, PartialEq, Eq, Structural)]
pub enum ModuleClass {
    Ecmascript,
    Typescript,
    TypescriptDeclaration,
    Json,
    Css,
    Static,
}

/// The construction record of a module asset: which constructor was
/// selected and with which parameters, plus the nested resolution scope
/// the module's own imports resolve in.
#[derive(Debug, Clone, PartialEq, Eq)]
pub struct ModuleConstruction {
    pub class: ModuleClass,
    pub transforms: Vec<u64>,
    pub environment: Environment,
    pub inner_context_path: FsPath,
    pub inner_environment: Environment,
    /// Mark left by the module hook of the transition that produced this
    /// module, if any.
    pub marker: Option<u64>,
}

/// Ghost mirror of `ModuleConstruction`.
#[verifier::ext_equal]
pub struct ModuleConstructionView {
    pub class: ModuleClass,
    pub transforms: Seq<u64>,
    pub environment: Environment,
    pub inner_context_path: Seq<u64>,
    pub inner_environment: Environment,
    pub marker: Option<u64>,
}

impl View for ModuleConstruction {
    type V = ModuleConstructionView;

    open spec fn view(&self) -> ModuleConstructionView {
        ModuleConstructionView {
            class: self.class,
            transforms: self.transforms@,
            environment: self.environment,
            inner_context_path: self.inner_context_path@,
            inner_environment: self.inner_environment,
            marker: self.marker,
        }
    }
}

/// What an asset is: a plain source, or a module constructed from one.
#[derive(Debug, Clone, PartialEq, Eq)]
pub enum AssetKind {
    Source,
    Module(ModuleConstruction),
}

/// Ghost mirror of `AssetKind`.
#[verifier::ext_equal]
pub enum AssetKindView {
    Source,
    Module(ModuleConstructionView),
}

impl View for AssetKind {
    type V = AssetKindView;

    open spec fn view(&self) -> AssetKindView {
        match self {
            AssetKind::Source => AssetKindView::Source,
            AssetKind::Module(c) => AssetKindView::Module(c@),
        }
    }
}

/// A build artifact: a path, interned content, and what it is.
#[derive(Debug, Clone, PartialEq, Eq)]
pub struct Asset {
    pub path: FsPath,
    pub content: u64,
    pub kind: AssetKind,
}

/// Ghost mirror of `Asset`.
#[verifier::ext_equal]
pub struct AssetView {
    pub path: Seq<u64>,
    pub content: u64,
    pub kind: AssetKindView,
}

impl View for Asset {
    type V = AssetView;

    open spec fn view(&self) -> AssetView {
        AssetView { path: self.path@, content: self.content, kind: self.kind@ }
    }
}

/// A fatal configuration error: the rule configuration broke the factory's
/// contract for the given path.
#[derive(Debug, Clone, Copy, PartialEq, Eq, Structural)]
pub enum CoreError {
    /// A matching rule registered an effect under the `ModuleType` key that
    /// is not a module type.
    InvalidModuleTypeEffect,
    /// The rules resolved to a custom module type, for which no factory
    /// branch exists.
    CustomModuleType(u64),
}

/// The module type the rules resolve for a path: the merged `ModuleType`
/// effect, defaulting to `Raw`, or `None` when a foreign effect sits under
/// the `ModuleType` key.
pub open spec fn spec_resolved_module_type(
    rules: Seq<ModuleRuleView>,
    path: Seq<u64>,
) -> Option<ModuleTypeView> {
    match merged_effect(rules, path, ModuleRuleEffectKey::ModuleType) {
        Option::None => Option::Some(ModuleTypeView::Raw),
        Option::Some(ModuleRuleEffectView::ModuleType(t)) => Option::Some(t),
        Option::Some(ModuleRuleEffectView::Custom(_)) => Option::None,
    }
}

/// The parent directory of a path, as segments.
pub open spec fn spec_parent_of(path: Seq<u64>) -> Seq<u64> {
    if path.len() == 0 {
        path
    } else {
        path.drop_last()
    }
}

/// The class, transforms and TypeScript need of a non-`Raw`, non-custom
/// module type.
pub open spec fn spec_construction(
    t: ModuleTypeView,
    env: Environment,
    scope: Seq<u64>,
) -> ModuleConstructionView {
    ModuleConstructionView {
        class: match t {
            ModuleTypeView::Ecmascript(_) => ModuleClass::Ecmascript,
            ModuleTypeView::Typescript(_) => ModuleClass::Typescript,
            ModuleTypeView::TypescriptDeclaration(_) => ModuleClass::TypescriptDeclaration,
            ModuleTypeView::Json => ModuleClass::Json,
            ModuleTypeView::Css => ModuleClass::Css,
            _ => ModuleClass::Static,
        },
        transforms: match t {
            ModuleTypeView::Ecmascript(tr) => tr,
            ModuleTypeView::Typescript(tr) => tr,
            ModuleTypeView::TypescriptDeclaration(tr) => tr,
            _ => Seq::empty(),
        },
        environment: env,
        inner_context_path: scope,
        inner_environment: spec_escalate(
            env,
            t is Typescript || t is TypescriptDeclaration,
        ),
        marker: Option::None,
    }
}

/// What the factory produces for `source` under `env` and `rules`: the
/// source itself for `Raw` (and for an already constructed module), a
/// module construction record for the concrete kinds, and a configuration
/// error for a custom type or a foreign `ModuleType` effect.
pub open spec fn spec_module(
    source: AssetView,
    env: Environment,
    rules: Seq<ModuleRuleView>,
) -> Result<AssetView, CoreError> {
    if source.kind is Module {
        Result::Ok(source)
    } else {
        match spec_resolved_module_type(rules, source.path) {
            Option::None => Result::Err(CoreError::InvalidModuleTypeEffect),
            Option::Some(t) => match t {
                ModuleTypeView::Raw => Result::Ok(source),
                ModuleTypeView::Custom(id) => Result::Err(CoreError::CustomModuleType(id)),
                _ => Result::Ok(
                    AssetView {
                        path: source.path,
                        content: source.content,
                        kind: AssetKindView::Module(
                            spec_construction(t, env, spec_parent_of(source.path)),
                        ),
                    },
                ),
            },
        }
    }
}

/// The view of a factory result.
pub open spec fn module_result_view(r: Result<Asset, CoreError>) -> Result<AssetView, CoreError> {
    match r {
        Result::Ok(a) => Result::Ok(a@),
        Result::Err(e) => Result::Err(e),
    }
}

/// An independently owned module construction record with the same view.
pub fn copy_construction(c: &ModuleConstruction) -> (r: ModuleConstruction)
    ensures
        r@ == c@,
{
    let r = ModuleConstruction {
        class: c.class,
        transforms: copy_u64_vec(&c.transforms),
        environment: c.environment,
        inner_context_path: c.inner_context_path.duplicate(),
        inner_environment: c.inner_environment,
        marker: c.marker,
    };
    assert(r@ =~= c@);
    r
}

/// An independently owned asset with the same view.
pub fn copy_asset(a: &Asset) -> (r: Asset)
    ensures
        r@ == a@,
{
    let kind = match &a.kind {
        AssetKind::Source => AssetKind::Source,
        AssetKind::Module(c) => AssetKind::Module(copy_construction(c)),
    };
    let r = Asset { path: a.path.duplicate(), content: a.content, kind };
    assert(r@ =~= a@);
    r
}

/// Classifies `source` by the rules and wires it to the selected module
/// constructor; `Raw` passes the source through, and a custom type or a
/// foreign `ModuleType` effect is a fatal configuration error.
pub fn module(
    source: &Asset,
    environment: &Environment,
    module_options_context: &ModuleOptionsContext,
) -> (r: Result<Asset, CoreError>)
    ensures
        module_result_view(r) == spec_module(source@, *environment, module_options_context@),
{
    if let AssetKind::Module(_) = &source.kind {
        return Ok(copy_asset(source));
    }
    let effects = resolved_effects(module_options_context, &source.path);
    let resolved: Option<&ModuleRuleEffect> = lookup_effect(
        &effects,
        ModuleRuleEffectKey::ModuleType,
    );
    let ty: &ModuleType = match resolved {
        Option::None => &ModuleType::Raw,
        Option::Some(ModuleRuleEffect::ModuleType(t)) => t,
        Option::Some(ModuleRuleEffect::Custom(_)) => {
            return Err(CoreError::InvalidModuleTypeEffect);
        },
    };
    let (class, transforms): (ModuleClass, Vec<u64>) = match ty {
        ModuleType::Raw => {
            return Ok(copy_asset(source));
        },
        ModuleType::Custom(id) => {
            return Err(CoreError::CustomModuleType(*id));
        },
        ModuleType::Ecmascript(tr) => (ModuleClass::Ecmascript, copy_u64_vec(tr)),
        ModuleType::Typescript(tr) => (ModuleClass::Typescript, copy_u64_vec(tr)),
        ModuleType::TypescriptDeclaration(tr) => (
            ModuleClass::TypescriptDeclaration,
            copy_u64_vec(tr),
        ),
        ModuleType::Json => (ModuleClass::Json, Vec::new()),
        ModuleType::Css => (ModuleClass::Css, Vec::new()),
        ModuleType::Static => (ModuleClass::Static, Vec::new()),
    };
    let needs_typescript = match class {
        ModuleClass::Typescript => true,
        ModuleClass::TypescriptDeclaration => true,
        _ => false,
    };
    let inner_environment = if needs_typescript {
        environment.with_typescript()
    } else {
        *environment
    };
    let a = Asset {
        path: source.path.duplicate(),
        content: source.content,
        kind: AssetKind::Module(
            ModuleConstruction {
                class,
                transforms,
                environment: *environment,
                inner_context_path: source.path.parent(),
                inner_environment,
                marker: None,
            },
        ),
    };
    proof {
        let expected = spec_module(source@, *environment, module_options_context@);
        assert(a@ =~= expected->Ok_0);
    }
    Ok(a)
}

} // verus!
