use bundler_core::paths::FsPath;
use bundler_core::environment::Environment;
use bundler_core::module_options::ModuleOptionsContext;
use bundler_core::module_options::ModuleRule;
use bundler_core::module_options::ModuleRuleCondition;
use bundler_core::module_options::ModuleRuleEffect;
use bundler_core::module_options::ModuleRuleEffectKey;
use bundler_core::module_options::ModuleType;
use bundler_core::module_options::resolved_effects;
use bundler_core::module_options::lookup_effect;
use bundler_core::factory::Asset;
use bundler_core::factory::AssetKind;
use bundler_core::factory::CoreError;
use bundler_core::factory::ModuleClass;
use bundler_core::factory::module;

fn path(segments: Vec<u64>) -> FsPath {
    FsPath::from_segments(segments)
}

fn rule_setting_type(condition: ModuleRuleCondition, ty: ModuleType) -> ModuleRule {
    ModuleRule {
        condition,
        effects: vec![(ModuleRuleEffectKey::ModuleType, ModuleRuleEffect::ModuleType(ty))],
    }
}

fn source(p: Vec<u64>, content: u64) -> Asset {
    Asset { path: path(p), content, kind: AssetKind::Source }
}

#[test]
fn colliding_key_later_rule_wins() {
    let options = ModuleOptionsContext {
        rules: vec![
            rule_setting_type(ModuleRuleCondition::Always, ModuleType::Json),
            rule_setting_type(ModuleRuleCondition::Always, ModuleType::Css),
        ],
    };
    let effects = resolved_effects(&options, &path(vec![1, 2]));
    let found = lookup_effect(&effects, ModuleRuleEffectKey::ModuleType);
    assert_eq!(found, Some(&ModuleRuleEffect::ModuleType(ModuleType::Css)));
}

#[test]
fn non_matching_rule_contributes_nothing() {
    let options = ModuleOptionsContext {
        rules: vec![
            rule_setting_type(ModuleRuleCondition::PathEquals(path(vec![9])), ModuleType::Css),
        ],
    };
    let effects = resolved_effects(&options, &path(vec![1, 2]));
    assert!(lookup_effect(&effects, ModuleRuleEffectKey::ModuleType).is_none());
}

#[test]
fn distinct_keys_merge_independent_of_order() {
    let rule_a = ModuleRule {
        condition: ModuleRuleCondition::Always,
        effects: vec![(ModuleRuleEffectKey::Custom(1), ModuleRuleEffect::Custom(10))],
    };
    let rule_b = ModuleRule {
        condition: ModuleRuleCondition::Always,
        effects: vec![(ModuleRuleEffectKey::Custom(2), ModuleRuleEffect::Custom(20))],
    };
    let first = ModuleOptionsContext { rules: vec![rule_a.clone(), rule_b.clone()] };
    let second = ModuleOptionsContext { rules: vec![rule_b, rule_a] };
    let p = path(vec![1]);
    let from_first = resolved_effects(&first, &p);
    let from_second = resolved_effects(&second, &p);
    for key in [ModuleRuleEffectKey::Custom(1), ModuleRuleEffectKey::Custom(2)] {
        assert_eq!(lookup_effect(&from_first, key), lookup_effect(&from_second, key));
    }
}

#[test]
fn rule_scoped_to_directory_matches_below_it() {
    let options = ModuleOptionsContext {
        rules: vec![
            rule_setting_type(ModuleRuleCondition::InDirectory(path(vec![1])), ModuleType::Json),
        ],
    };
    let inside = resolved_effects(&options, &path(vec![1, 2]));
    assert!(lookup_effect(&inside, ModuleRuleEffectKey::ModuleType).is_some());
    let outside = resolved_effects(&options, &path(vec![3, 2]));
    assert!(lookup_effect(&outside, ModuleRuleEffectKey::ModuleType).is_none());
}

#[test]
fn default_module_type_is_raw_passthrough() {
    let options = ModuleOptionsContext { rules: vec![] };
    let env = Environment::new(0, false);
    let src = source(vec![1, 2], 77);
    let out = module(&src, &env, &options).unwrap();
    assert_eq!(out, src);
}

#[test]
fn custom_module_type_is_fatal() {
    let options = ModuleOptionsContext {
        rules: vec![rule_setting_type(ModuleRuleCondition::Always, ModuleType::Custom(7))],
    };
    let env = Environment::new(0, false);
    let src = source(vec![1], 1);
    assert_eq!(module(&src, &env, &options), Err(CoreError::CustomModuleType(7)));
}

#[test]
fn foreign_effect_under_module_type_key_is_fatal() {
    let options = ModuleOptionsContext {
        rules: vec![ModuleRule {
            condition: ModuleRuleCondition::Always,
            effects: vec![(ModuleRuleEffectKey::ModuleType, ModuleRuleEffect::Custom(9))],
        }],
    };
    let env = Environment::new(0, false);
    let src = source(vec![1], 1);
    assert_eq!(module(&src, &env, &options), Err(CoreError::InvalidModuleTypeEffect));
}

#[test]
fn ecmascript_rule_builds_module_scoped_to_parent() {
    let transforms = vec![40, 41];
    let options = ModuleOptionsContext {
        rules: vec![
            rule_setting_type(ModuleRuleCondition::Always, ModuleType::Ecmascript(transforms)),
        ],
    };
    let env = Environment::new(3, false);
    let src = source(vec![1, 2, 3], 5);
    let out = module(&src, &env, &options).unwrap();
    assert_eq!(out.path, path(vec![1, 2, 3]));
    assert_eq!(out.content, 5);
    match out.kind {
        AssetKind::Module(c) => {
            assert_eq!(c.class, ModuleClass::Ecmascript);
            assert_eq!(c.transforms, vec![40, 41]);
            assert_eq!(c.environment, env);
            assert_eq!(c.inner_context_path, path(vec![1, 2]));
            assert_eq!(c.inner_environment, env);
            assert_eq!(c.marker, None);
        }
        AssetKind::Source => panic!("expected a module"),
    }
}

#[test]
fn typescript_rule_escalates_inner_environment() {
    let options = ModuleOptionsContext {
        rules: vec![
            rule_setting_type(ModuleRuleCondition::Always, ModuleType::Typescript(vec![])),
        ],
    };
    let env = Environment::new(3, false);
    let src = source(vec![1, 2], 5);
    let out = module(&src, &env, &options).unwrap();
    match out.kind {
        AssetKind::Module(c) => {
            assert_eq!(c.class, ModuleClass::Typescript);
            assert!(c.inner_environment.is_typescript_enabled());
            assert_eq!(c.environment, env);
        }
        AssetKind::Source => panic!("expected a module"),
    }
}
