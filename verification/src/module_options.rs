//! The module rule engine.
//!
//! A configuration is an ordered list of rules; each rule carries a
//! predicate over paths and a list of keyed effects. For a given path the
//! engine merges the effects of every matching rule into one effect map,
//! in configuration order, so that for a colliding key the later-configured
//! matching rule always wins. The merged `ModuleType` effect (default
//! `Raw`) decides which module kind the factory constructs.

use vstd::prelude::*;
use crate::paths::FsPath;
use crate::paths::strictly_contains;
use crate::util::copy_u64_vec;

verus! {

/// The keys an effect can be registered under. The core dispatches on
/// `ModuleType`; other keys are carried for callers to inspect.
#[derive(Debug, Clone, Copy, PartialEq, Eq, Structural)]
pub enum ModuleRuleEffectKey {
    ModuleType,
    Custom(u64),
}

/// The module classification a rule can assign, with its construction
/// parameters (interned transform identities for the ECMAScript kinds).
#[derive(Debug, Clone, PartialEq, Eq)]
pub enum ModuleType {
    Ecmascript(Vec<u64>),
    Typescript(Vec<u64>),
    TypescriptDeclaration(Vec<u64>),
    Json,
    Raw,
    Css,
    Static,
    Custom(u64),
}

/// Ghost mirror of `ModuleType`, with transform lists as sequences.
#[verifier::ext_equal]
pub enum ModuleTypeView {
    Ecmascript(Seq<u64>),
    Typescript(Seq<u64>),
    TypescriptDeclaration(Seq<u64>),
    Json,
    Raw,
    Css,
    Static,
    Custom(u64),
}

impl View for ModuleType {
    type V = ModuleTypeView;

    open spec fn view(&self) -> ModuleTypeView {
        match self {
            ModuleType::Ecmascript(t) => ModuleTypeView::Ecmascript(t@),
            ModuleType::Typescript(t) => ModuleTypeView::Typescript(t@),
            ModuleType::TypescriptDeclaration(t) => ModuleTypeView::TypescriptDeclaration(t@),
            ModuleType::Json => ModuleTypeView::Json,
            ModuleType::Raw => ModuleTypeView::Raw,
            ModuleType::Css => ModuleTypeView::Css,
            ModuleType::Static => ModuleTypeView::Static,
            ModuleType::Custom(id) => ModuleTypeView::Custom(*id),
        }
    }
}

/// An effect attached to a rule under some key.
#[derive(Debug, Clone, PartialEq, Eq)]
pub enum ModuleRuleEffect {
    ModuleType(ModuleType),
    Custom(u64),
}

/// Ghost mirror of `ModuleRuleEffect`.
#[verifier::ext_equal]
pub enum ModuleRuleEffectView {
    ModuleType(ModuleTypeView),
    Custom(u64),
}

impl View for ModuleRuleEffect {
    type V = ModuleRuleEffectView;

    open spec fn view(&self) -> ModuleRuleEffectView {
        match self {
            ModuleRuleEffect::ModuleType(t) => ModuleRuleEffectView::ModuleType(t@),
            ModuleRuleEffect::Custom(id) => ModuleRuleEffectView::Custom(*id),
        }
    }
}

/// The predicate deciding whether a rule applies to a path. Richer glob
/// matching is a collaborator's concern; the engine only needs a decidable
/// predicate over path segments.
#[derive(Debug, Clone, PartialEq, Eq)]
pub enum ModuleRuleCondition {
    Always,
    PathEquals(FsPath),
    InDirectory(FsPath),
}

/// Ghost mirror of `ModuleRuleCondition`.
#[verifier::ext_equal]
pub enum ModuleRuleConditionView {
    Always,
    PathEquals(Seq<u64>),
    InDirectory(Seq<u64>),
}

impl View for ModuleRuleCondition {
    type V = ModuleRuleConditionView;

    open spec fn view(&self) -> ModuleRuleConditionView {
        match self {
            ModuleRuleCondition::Always => ModuleRuleConditionView::Always,
            ModuleRuleCondition::PathEquals(p) => ModuleRuleConditionView::PathEquals(p@),
            ModuleRuleCondition::InDirectory(p) => ModuleRuleConditionView::InDirectory(p@),
        }
    }
}

/// One configured rule: a predicate and the effects it contributes.
#[derive(Debug, Clone, PartialEq, Eq)]
pub struct ModuleRule {
    pub condition: ModuleRuleCondition,
    pub effects: Vec<(ModuleRuleEffectKey, ModuleRuleEffect)>,
}

/// Ghost mirror of `ModuleRule`.
#[verifier::ext_equal]
pub struct ModuleRuleView {
    pub condition: ModuleRuleConditionView,
    pub effects: Seq<(ModuleRuleEffectKey, ModuleRuleEffectView)>,
}

impl View for ModuleRule {
    type V = ModuleRuleView;

    open spec fn view(&self) -> ModuleRuleView {
        ModuleRuleView {
            condition: self.condition@,
            effects: effects_view(self.effects@),
        }
    }
}

/// The configuration bundle: every rule, in configuration order.
#[derive(Debug, Clone, PartialEq, Eq)]
pub struct ModuleOptionsContext {
    pub rules: Vec<ModuleRule>,
}

impl View for ModuleOptionsContext {
    type V = Seq<ModuleRuleView>;

    open spec fn view(&self) -> Seq<ModuleRuleView> {
        self.rules@.map_values(|r: ModuleRule| r@)
    }
}

/// Whether a condition holds of a path.
pub open spec fn spec_condition_matches(c: ModuleRuleConditionView, path: Seq<u64>) -> bool {
    match c {
        ModuleRuleConditionView::Always => true,
        ModuleRuleConditionView::PathEquals(p) => p == path,
        ModuleRuleConditionView::InDirectory(d) => strictly_contains(d, path),
    }
}

/// Whether a rule applies to a path.
pub open spec fn spec_rule_matches(r: ModuleRuleView, path: Seq<u64>) -> bool {
    spec_condition_matches(r.condition, path)
}

/// The keyed effect list as seen by specifications.
pub open spec fn effects_view(
    effects: Seq<(ModuleRuleEffectKey, ModuleRuleEffect)>,
) -> Seq<(ModuleRuleEffectKey, ModuleRuleEffectView)> {
    effects.map_values(|p: (ModuleRuleEffectKey, ModuleRuleEffect)| (p.0, p.1@))
}

/// The effect a keyed effect list assigns to `key`: the last entry under
/// that key, if any.
pub open spec fn effects_lookup(
    effects: Seq<(ModuleRuleEffectKey, ModuleRuleEffectView)>,
    key: ModuleRuleEffectKey,
) -> Option<ModuleRuleEffectView>
    decreases effects.len(),
{
    if effects.len() == 0 {
        None
    } else if effects.last().0 == key {
        Some(effects.last().1)
    } else {
        effects_lookup(effects.drop_last(), key)
    }
}

/// The merged effect for `key` after every rule in `rules` has been applied
/// to `path` in configuration order: the effect of the last matching rule
/// that sets `key`, and `None` when no matching rule sets it.
pub open spec fn merged_effect(
    rules: Seq<ModuleRuleView>,
    path: Seq<u64>,
    key: ModuleRuleEffectKey,
) -> Option<ModuleRuleEffectView>
    decreases rules.len(),
{
    if rules.len() == 0 {
        None
    } else {
        let prev = merged_effect(rules.drop_last(), path, key);
        if spec_rule_matches(rules.last(), path) {
            match effects_lookup(rules.last().effects, key) {
                Some(e) => Some(e),
                None => prev,
            }
        } else {
            prev
        }
    }
}

/// Whether a rule contributes an effect under `key`.
pub open spec fn sets_key(r: ModuleRuleView, key: ModuleRuleEffectKey) -> bool {
    effects_lookup(r.effects, key) is Some
}

/// Law: for a colliding key, the later-configured matching rule always
/// wins. The merged effect for `key` is exactly the effect of the last
/// matching rule that sets `key`.
pub proof fn lemma_later_matching_rule_wins(
    rules: Seq<ModuleRuleView>,
    path: Seq<u64>,
    key: ModuleRuleEffectKey,
    i: int,
)
    requires
        0 <= i < rules.len(),
        spec_rule_matches(rules[i], path),
        sets_key(rules[i], key),
        forall|j: int|
            i < j < rules.len() ==> !(spec_rule_matches(#[trigger] rules[j], path) && sets_key(
                rules[j],
                key,
            )),
    ensures
        merged_effect(rules, path, key) == effects_lookup(rules[i].effects, key),
    decreases rules.len(),
{
    if i == rules.len() - 1 {
    } else {
        assert(rules.drop_last()[i] == rules[i]);
        lemma_later_matching_rule_wins(rules.drop_last(), path, key, i);
    }
}

/// Law: merging is independent of configuration order for rules whose
/// effect keys are disjoint. Swapping two adjacent rules that set no
/// common key leaves every merged effect unchanged.
pub proof fn lemma_merge_order_independent(
    prefix: Seq<ModuleRuleView>,
    a: ModuleRuleView,
    b: ModuleRuleView,
    suffix: Seq<ModuleRuleView>,
    path: Seq<u64>,
    key: ModuleRuleEffectKey,
)
    requires
        forall|k: ModuleRuleEffectKey| !(#[trigger] sets_key(a, k) && sets_key(b, k)),
    ensures
        merged_effect(prefix + seq![a, b] + suffix, path, key) == merged_effect(
            prefix + seq![b, a] + suffix,
            path,
            key,
        ),
    decreases suffix.len(),
{
    let s1 = prefix + seq![a, b] + suffix;
    let s2 = prefix + seq![b, a] + suffix;
    if suffix.len() == 0 {
        reveal_with_fuel(merged_effect, 3);
        assert(s1.last() == b && s2.last() == a);
        assert(s1.drop_last() =~= prefix + seq![a]);
        assert(s2.drop_last() =~= prefix + seq![b]);
        assert((prefix + seq![a]).last() == a && (prefix + seq![b]).last() == b);
        assert((prefix + seq![a]).drop_last() =~= prefix);
        assert((prefix + seq![b]).drop_last() =~= prefix);
        assert(!(sets_key(a, key) && sets_key(b, key)));
    } else {
        assert(s1.last() == suffix.last() && s2.last() == suffix.last());
        assert(s1.drop_last() =~= prefix + seq![a, b] + suffix.drop_last());
        assert(s2.drop_last() =~= prefix + seq![b, a] + suffix.drop_last());
        lemma_merge_order_independent(prefix, a, b, suffix.drop_last(), path, key);
    }
}

/// How a keyed effect list with pairwise distinct keys reads at the key
/// of its entry `i`.
pub proof fn lemma_assoc_reads_at(
    s: Seq<(ModuleRuleEffectKey, ModuleRuleEffectView)>,
    key: ModuleRuleEffectKey,
    i: int,
)
    requires
        forall|u: int, v: int| 0 <= u < v < s.len() ==> s[u].0 != s[v].0,
        0 <= i < s.len(),
        s[i].0 == key,
    ensures
        effects_lookup(s, key) == Some(s[i].1),
    decreases s.len(),
{
    if i < s.len() - 1 {
        assert(forall|u: int| 0 <= u < s.len() - 1 ==> s.drop_last()[u] == s[u]);
        lemma_assoc_reads_at(s.drop_last(), key, i);
    }
}

/// A keyed effect list holding no entry under `key` reads as `None`.
pub proof fn lemma_assoc_reads_none(
    s: Seq<(ModuleRuleEffectKey, ModuleRuleEffectView)>,
    key: ModuleRuleEffectKey,
)
    requires
        forall|u: int| 0 <= u < s.len() ==> (#[trigger] s[u]).0 != key,
    ensures
        effects_lookup(s, key) is None,
    decreases s.len(),
{
    if s.len() > 0 {
        assert(forall|u: int| 0 <= u < s.len() - 1 ==> s.drop_last()[u] == s[u]);
        lemma_assoc_reads_none(s.drop_last(), key);
    }
}

/// The merged effect under a key that a matching rule assigns, searched by
/// an executable scan of the merged map.
pub fn lookup_effect<'a>(
    effects: &'a Vec<(ModuleRuleEffectKey, ModuleRuleEffect)>,
    key: ModuleRuleEffectKey,
) -> (r: Option<&'a ModuleRuleEffect>)
    requires
        forall|i: int, j: int| 0 <= i < j < effects@.len() ==> effects@[i].0 != effects@[j].0,
    ensures
        match r {
            Some(e) => effects_lookup(effects_view(effects@), key) == Some(e@),
            None => effects_lookup(effects_view(effects@), key) is None,
        },
{
    let mut i: usize = 0;
    while i < effects.len()
        invariant
            i <= effects.len(),
            forall|u: int, v: int| 0 <= u < v < effects@.len() ==> effects@[u].0 != effects@[v].0,
            forall|j: int| 0 <= j < i ==> effects@[j].0 != key,
        decreases effects.len() - i,
    {
        if effects[i].0 == key {
            proof {
                assert(forall|u: int|
                    0 <= u < effects@.len() ==> (#[trigger] effects_view(effects@)[u]).0
                        == effects@[u].0);
                assert forall|u: int, v: int|
                    0 <= u < v < effects_view(effects@).len() implies (effects_view(effects@)[u]).0
                    != (effects_view(effects@)[v]).0 by {
                    assert(effects@[u].0 != effects@[v].0);
                    assert(effects_view(effects@)[u] == (effects@[u].0, effects@[u].1@));
                    assert(effects_view(effects@)[v] == (effects@[v].0, effects@[v].1@));
                }
                lemma_assoc_reads_at(effects_view(effects@), key, i as int);
            }
            return Some(&effects[i].1);
        }
        i = i + 1;
    }
    proof {
        assert(forall|j: int|
            0 <= j < effects@.len() ==> (#[trigger] effects_view(effects@)[j]).0 == effects@[j].0);
        lemma_assoc_reads_none(effects_view(effects@), key);
    }
    None
}

impl ModuleRuleCondition {
    /// Evaluates this condition on a path.
    pub fn matches(&self, path: &FsPath) -> (b: bool)
        ensures
            b == spec_condition_matches(self@, path@),
    {
        match self {
            ModuleRuleCondition::Always => true,
            ModuleRuleCondition::PathEquals(p) => p.same_path(path),
            ModuleRuleCondition::InDirectory(d) => path.is_inside(d),
        }
    }
}

impl ModuleRule {
    /// Whether this rule applies to a path.
    pub fn matches(&self, path: &FsPath) -> (b: bool)
        ensures
            b == spec_rule_matches(self@, path@),
    {
        self.condition.matches(path)
    }
}

/// An independently owned module type with the same view.
pub fn copy_module_type(t: &ModuleType) -> (r: ModuleType)
    ensures
        r@ == t@,
{
    match t {
        ModuleType::Ecmascript(tr) => ModuleType::Ecmascript(copy_u64_vec(tr)),
        ModuleType::Typescript(tr) => ModuleType::Typescript(copy_u64_vec(tr)),
        ModuleType::TypescriptDeclaration(tr) => ModuleType::TypescriptDeclaration(
            copy_u64_vec(tr),
        ),
        ModuleType::Json => ModuleType::Json,
        ModuleType::Raw => ModuleType::Raw,
        ModuleType::Css => ModuleType::Css,
        ModuleType::Static => ModuleType::Static,
        ModuleType::Custom(id) => ModuleType::Custom(*id),
    }
}

/// An independently owned effect with the same view.
pub fn copy_effect(e: &ModuleRuleEffect) -> (r: ModuleRuleEffect)
    ensures
        r@ == e@,
{
    match e {
        ModuleRuleEffect::ModuleType(t) => ModuleRuleEffect::ModuleType(copy_module_type(t)),
        ModuleRuleEffect::Custom(id) => ModuleRuleEffect::Custom(*id),
    }
}

/// An independently owned condition with the same view.
pub fn copy_condition(c: &ModuleRuleCondition) -> (r: ModuleRuleCondition)
    ensures
        r@ == c@,
{
    match c {
        ModuleRuleCondition::Always => ModuleRuleCondition::Always,
        ModuleRuleCondition::PathEquals(p) => ModuleRuleCondition::PathEquals(p.duplicate()),
        ModuleRuleCondition::InDirectory(p) => ModuleRuleCondition::InDirectory(p.duplicate()),
    }
}

/// An independently owned rule with the same view.
pub fn copy_rule(rule: &ModuleRule) -> (r: ModuleRule)
    ensures
        r@ == rule@,
{
    let mut effects: Vec<(ModuleRuleEffectKey, ModuleRuleEffect)> = Vec::new();
    let mut i: usize = 0;
    while i < rule.effects.len()
        invariant
            i <= rule.effects.len(),
            effects@.len() == i,
            forall|j: int|
                0 <= j < i ==> effects@[j].0 == rule.effects@[j].0 && effects@[j].1@
                    == rule.effects@[j].1@,
        decreases rule.effects.len() - i,
    {
        effects.push((rule.effects[i].0, copy_effect(&rule.effects[i].1)));
        i = i + 1;
    }
    assert(effects_view(effects@) =~= effects_view(rule.effects@));
    let r = ModuleRule { condition: copy_condition(&rule.condition), effects };
    assert(r@ =~= rule@);
    r
}

/// An independently owned configuration with the same view.
pub fn copy_options(options: &ModuleOptionsContext) -> (r: ModuleOptionsContext)
    ensures
        r@ == options@,
{
    let mut rules: Vec<ModuleRule> = Vec::new();
    let mut i: usize = 0;
    while i < options.rules.len()
        invariant
            i <= options.rules.len(),
            rules@.len() == i,
            forall|j: int| 0 <= j < i ==> rules@[j]@ == options.rules@[j]@,
        decreases options.rules.len() - i,
    {
        rules.push(copy_rule(&options.rules[i]));
        i = i + 1;
    }
    let r = ModuleOptionsContext { rules };
    assert(r@ =~= options@);
    r
}

/// The merged effect map for `path`: every rule in configuration order,
/// matching rules overriding earlier entries key by key.
pub fn resolved_effects(options: &ModuleOptionsContext, path: &FsPath) -> (r: Vec<
    (ModuleRuleEffectKey, ModuleRuleEffect),
>)
    ensures
        forall|key: ModuleRuleEffectKey|
            #[trigger] effects_lookup(effects_view(r@), key) == merged_effect(
                options@,
                path@,
                key,
            ),
        forall|i: int, j: int| 0 <= i < j < r@.len() ==> r@[i].0 != r@[j].0,
{
    let mut acc: Vec<(ModuleRuleEffectKey, ModuleRuleEffect)> = Vec::new();
    let ghost path_v = path@;
    let mut ri: usize = 0;
    while ri < options.rules.len()
        invariant
            ri <= options.rules.len(),
            path_v == path@,
            forall|key: ModuleRuleEffectKey|
                #[trigger] effects_lookup(effects_view(acc@), key) == merged_effect(
                    options@.subrange(0, ri as int),
                    path_v,
                    key,
                ),
            forall|i: int, j: int| 0 <= i < j < acc@.len() ==> acc@[i].0 != acc@[j].0,
        decreases options.rules.len() - ri,
    {
        let ghost rules_prefix = options@.subrange(0, ri as int);
        let rule = &options.rules[ri];
        if rule.matches(path) {
            let mut ei: usize = 0;
            while ei < rule.effects.len()
                invariant
                    ei <= rule.effects.len(),
                    path_v == path@,
                    spec_rule_matches(rule@, path_v),
                    forall|key: ModuleRuleEffectKey|
                        #[trigger] effects_lookup(effects_view(acc@), key) == (match effects_lookup(
                            rule@.effects.subrange(0, ei as int),
                            key,
                        ) {
                            Some(e) => Some(e),
                            None => merged_effect(rules_prefix, path_v, key),
                        }),
                    forall|i: int, j: int| 0 <= i < j < acc@.len() ==> acc@[i].0 != acc@[j].0,
                decreases rule.effects.len() - ei,
            {
                let key = rule.effects[ei].0;
                let eff = copy_effect(&rule.effects[ei].1);
                let ghost acc_before = acc@;
                let mut found: bool = false;
                let mut ai: usize = 0;
                while !found && ai < acc.len()
                    invariant
                        ai <= acc.len(),
                        !found ==> forall|j: int| 0 <= j < ai ==> acc@[j].0 != key,
                        found ==> ai < acc@.len() && acc@[ai as int].0 == key,
                        acc@ == acc_before,
                    decreases acc.len() - ai, (if found { 0int } else { 1int }),
                {
                    if acc[ai].0 == key {
                        found = true;
                    } else {
                        ai = ai + 1;
                    }
                }
                if found {
                    acc.set(ai, (key, eff));
                } else {
                    acc.push((key, eff));
                }
                proof {
                    let cur = rule@.effects;
                    assert(cur.subrange(0, (ei + 1) as int).drop_last() =~= cur.subrange(
                        0,
                        ei as int,
                    ));
                    assert(cur[ei as int] == (key, eff@));
                    if acc@.len() == acc_before.len() + 1 {
                        assert(effects_view(acc@).drop_last() =~= effects_view(acc_before));
                        assert(effects_view(acc@).last() == (key, eff@));
                    } else {
                        assert(effects_view(acc@) =~= effects_view(acc_before).update(
                            ai as int,
                            (key, eff@),
                        ));
                        assert(effects_view(acc_before)[ai as int].0 == key);
                    }
                    assert forall|k: ModuleRuleEffectKey|
                        #[trigger] effects_lookup(effects_view(acc@), k) == (match effects_lookup(
                            cur.subrange(0, (ei + 1) as int),
                            k,
                        ) {
                            Some(e) => Some(e),
                            None => merged_effect(rules_prefix, path_v, k),
                        }) by {
                        lemma_assoc_update(effects_view(acc_before), effects_view(acc@), key,
                            rule@.effects[ei as int].1, k);
                    }
                }
                ei = ei + 1;
            }
            proof {
                assert(rule@.effects.subrange(0, rule@.effects.len() as int) =~= rule@.effects);
                assert(options@.subrange(0, (ri + 1) as int).drop_last() =~= options@.subrange(
                    0,
                    ri as int,
                ));
                assert(options@.subrange(0, (ri + 1) as int).last() == rule@);
            }
        } else {
            proof {
                assert(options@.subrange(0, (ri + 1) as int).drop_last() =~= options@.subrange(
                    0,
                    ri as int,
                ));
                assert(options@.subrange(0, (ri + 1) as int).last() == rule@);
            }
        }
        ri = ri + 1;
    }
    proof {
        assert(options@.subrange(0, options@.len() as int) =~= options@);
    }
    acc
}

/// How an association list read changes when one key is overwritten or
/// appended: the updated key now maps to the new effect, every other key
/// reads as before.
proof fn lemma_assoc_update(
    before: Seq<(ModuleRuleEffectKey, ModuleRuleEffectView)>,
    after: Seq<(ModuleRuleEffectKey, ModuleRuleEffectView)>,
    key: ModuleRuleEffectKey,
    eff: ModuleRuleEffectView,
    probe: ModuleRuleEffectKey,
)
    requires
        forall|i: int, j: int| 0 <= i < j < before.len() ==> before[i].0 != before[j].0,
        after.len() == before.len() || after.len() == before.len() + 1,
        after.len() == before.len() + 1 ==> {
            &&& after.drop_last() == before
            &&& after.last() == (key, eff)
            &&& forall|i: int| 0 <= i < before.len() ==> before[i].0 != key
        },
        after.len() == before.len() ==> exists|u: int|
            {
                &&& 0 <= u < before.len()
                &&& before[u].0 == key
                &&& after == before.update(u, (key, eff))
            },
    ensures
        effects_lookup(after, probe) == (if probe == key {
            Some(eff)
        } else {
            effects_lookup(before, probe)
        }),
    decreases after.len(),
{
    if after.len() == before.len() + 1 {
        if probe == key {
        } else {
            assert(after.drop_last() == before);
        }
    } else {
        let u = choose|u: int|
            0 <= u < before.len() && before[u].0 == key && after == before.update(u, (key, eff));
        if u == before.len() - 1 {
            assert(after.drop_last() =~= before.drop_last());
        } else {
            assert(after.last() == before.last());
            assert(after.drop_last() =~= before.drop_last().update(u, (key, eff)));
            lemma_assoc_update(before.drop_last(), after.drop_last(), key, eff, probe);
        }
    }
}

} // verus!
