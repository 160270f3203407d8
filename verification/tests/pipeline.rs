use bundler_core::paths::FsPath;
use bundler_core::environment::Environment;
use bundler_core::module_options::ModuleOptionsContext;
use bundler_core::module_options::ModuleRule;
use bundler_core::module_options::ModuleRuleCondition;
use bundler_core::module_options::ModuleRuleEffect;
use bundler_core::module_options::ModuleRuleEffectKey;
use bundler_core::module_options::ModuleType;
use bundler_core::factory::Asset;
use bundler_core::factory::AssetKind;
use bundler_core::context::AssetReference;
use bundler_core::context::Diagnostic;
use bundler_core::context::ModuleAssetContext;
use bundler_core::context::ResolveResult;
use bundler_core::context::Transition;

fn path(segments: Vec<u64>) -> FsPath {
    FsPath::from_segments(segments)
}

fn ecmascript_everywhere() -> ModuleOptionsContext {
    ModuleOptionsContext {
        rules: vec![ModuleRule {
            condition: ModuleRuleCondition::Always,
            effects: vec![(
                ModuleRuleEffectKey::ModuleType,
                ModuleRuleEffect::ModuleType(ModuleType::Ecmascript(vec![])),
            )],
        }],
    }
}

fn plain_context(env: Environment) -> ModuleAssetContext {
    ModuleAssetContext::new(vec![], path(vec![1]), env, ecmascript_everywhere())
}

fn source(p: Vec<u64>, content: u64) -> Asset {
    Asset { path: path(p), content, kind: AssetKind::Source }
}

#[test]
fn process_is_idempotent_under_equal_contexts() {
    let env = Environment::new(0, false);
    let ctx1 = plain_context(env);
    let ctx2 = plain_context(env);
    let a = source(vec![1, 2], 9);
    let once = ctx1.process(&a).unwrap();
    let twice = ctx2.process(&once).unwrap();
    assert_eq!(twice, once);
}

#[test]
fn process_is_idempotent_through_a_transition() {
    let env = Environment::new(0, false);
    let transition = Transition {
        source_content_override: Some(500),
        target_environment: Some(Environment::new(8, true)),
        module_marker: Some(42),
    };
    let ctx1 = ModuleAssetContext::new_transition(
        vec![(1, transition)],
        path(vec![1]),
        env,
        ecmascript_everywhere(),
        transition,
    );
    let ctx2 = ModuleAssetContext::new_transition(
        vec![(1, transition)],
        path(vec![1]),
        env,
        ecmascript_everywhere(),
        transition,
    );
    let a = source(vec![1, 2], 9);
    let once = ctx1.process(&a).unwrap();
    let twice = ctx2.process(&once).unwrap();
    assert_eq!(twice, once);
    match once.kind {
        AssetKind::Module(c) => {
            assert_eq!(c.marker, Some(42));
            assert_eq!(c.environment, Environment::new(8, true));
        }
        AssetKind::Source => panic!("expected a module"),
    }
    assert_eq!(once.content, 500);
}

#[test]
fn raw_passthrough_keeps_source_content_override() {
    let env = Environment::new(0, false);
    let transition = Transition {
        source_content_override: Some(321),
        target_environment: None,
        module_marker: None,
    };
    let ctx = ModuleAssetContext::new_transition(
        vec![],
        path(vec![1]),
        env,
        ModuleOptionsContext { rules: vec![] },
        transition,
    );
    let a = source(vec![1, 2], 9);
    let out = ctx.process(&a).unwrap();
    assert_eq!(out.content, 321);
    assert_eq!(out.kind, AssetKind::Source);
}

#[test]
fn resolve_options_selects_typescript_variant() {
    let ts = plain_context(Environment::new(0, true)).resolve_options();
    assert!(ts.typescript);
    let plain = plain_context(Environment::new(0, false)).resolve_options();
    assert!(!plain.typescript);
    assert_eq!(plain.context_path, path(vec![1]));
}

#[test]
fn resolve_asset_attaches_one_types_reference() {
    let ctx = plain_context(Environment::new(0, true));
    let resolution = ResolveResult { assets: vec![source(vec![1, 2], 3)], references: vec![] };
    let out = ctx.resolve_asset(&path(vec![1]), 77, &resolution).unwrap();
    assert_eq!(out.references.len(), 1);
    assert_eq!(
        out.references[0],
        AssetReference::TypescriptTypes { context_path: path(vec![1]), request: 77 }
    );
    let again = ctx.resolve_asset(&path(vec![1]), 77, &resolution).unwrap();
    assert_eq!(again, out);
    assert_eq!(again.references.len(), 1);
}

#[test]
fn resolve_asset_without_typescript_adds_no_reference() {
    let ctx = plain_context(Environment::new(0, false));
    let resolution = ResolveResult {
        assets: vec![source(vec![1, 2], 3)],
        references: vec![AssetReference::Plain(5)],
    };
    let out = ctx.resolve_asset(&path(vec![1]), 77, &resolution).unwrap();
    assert_eq!(out.references, vec![AssetReference::Plain(5)]);
}

#[test]
fn process_resolve_result_processes_every_asset() {
    let ctx = plain_context(Environment::new(0, false));
    let resolution = ResolveResult {
        assets: vec![source(vec![1, 2], 3), source(vec![1, 4], 6)],
        references: vec![AssetReference::Plain(5)],
    };
    let out = ctx.process_resolve_result(&resolution).unwrap();
    assert_eq!(out.assets.len(), 2);
    for a in &out.assets {
        assert!(matches!(a.kind, AssetKind::Module(_)));
    }
    assert_eq!(out.references, vec![AssetReference::Plain(5)]);
}

#[test]
fn with_context_path_replaces_only_the_path() {
    let ctx = plain_context(Environment::new(2, false));
    let derived = ctx.with_context_path(&path(vec![7, 8]));
    assert_eq!(derived.context_path, path(vec![7, 8]));
    assert_eq!(derived.environment, ctx.environment);
    assert_eq!(derived.module_options_context, ctx.module_options_context);
    assert_eq!(derived.transition, None);
}

#[test]
fn with_environment_replaces_only_the_environment() {
    let ctx = plain_context(Environment::new(2, false));
    let derived = ctx.with_environment(&Environment::new(9, true));
    assert_eq!(derived.environment, Environment::new(9, true));
    assert_eq!(derived.context_path, ctx.context_path);
}

#[test]
fn with_context_path_keeps_the_active_transition() {
    let transition = Transition {
        source_content_override: Some(7),
        target_environment: None,
        module_marker: Some(3),
    };
    let ctx = ModuleAssetContext::new_transition(
        vec![(1, transition)],
        path(vec![1]),
        Environment::new(0, false),
        ecmascript_everywhere(),
        transition,
    );
    let derived = ctx.with_context_path(&path(vec![7, 8]));
    assert_eq!(derived.context_path, path(vec![7, 8]));
    assert_eq!(derived.transition, Some(transition));
    assert_eq!(derived.transitions, ctx.transitions);
}

#[test]
fn with_environment_keeps_the_active_transition() {
    let transition = Transition {
        source_content_override: None,
        target_environment: Some(Environment::new(4, true)),
        module_marker: None,
    };
    let ctx = ModuleAssetContext::new_transition(
        vec![(1, transition)],
        path(vec![1]),
        Environment::new(0, false),
        ecmascript_everywhere(),
        transition,
    );
    let derived = ctx.with_environment(&Environment::new(9, true));
    assert_eq!(derived.environment, Environment::new(9, true));
    assert_eq!(derived.transition, Some(transition));
}

#[test]
fn with_transition_activates_a_known_name() {
    let transition = Transition {
        source_content_override: None,
        target_environment: Some(Environment::new(4, false)),
        module_marker: Some(1),
    };
    let ctx = ModuleAssetContext::new(
        vec![(10, transition)],
        path(vec![1]),
        Environment::new(0, false),
        ecmascript_everywhere(),
    );
    let (derived, diagnostic) = ctx.with_transition(10);
    assert_eq!(derived.transition, Some(transition));
    assert_eq!(diagnostic, None);
}

#[test]
fn with_transition_surfaces_unknown_name_as_diagnostic() {
    let ctx = plain_context(Environment::new(0, false));
    let (derived, diagnostic) = ctx.with_transition(99);
    assert_eq!(derived.transition, None);
    assert_eq!(diagnostic, Some(Diagnostic::UnknownTransition(99)));
    assert_eq!(derived.context_path, ctx.context_path);
}

#[test]
fn environment_escalation_is_a_new_value() {
    let env = Environment::new(5, false);
    let upgraded = env.with_typescript();
    assert!(!env.is_typescript_enabled());
    assert!(upgraded.is_typescript_enabled());
    assert_eq!(upgraded.target, 5);
}
