//! Builds the effect pool and the cue list of a show from its configuration.
use crate::cue::{CueList, CueModel};
use crate::effect::{
    effect_models, element_models, group_targets, targets, unloaded, Effect, EffectElement,
    EffectElementModel, EffectModel, EffectPool, EffectPoolModel, GroupElement, GroupMap, Target,
};
use crate::names::NameMap;
use crate::pattern::{Pattern, PatternModel};
use crate::text::{decimal_digits, decimal_text, drop_first_char, fields, split_fields, tail, views};
use crate::value::Value;
use vstd::prelude::*;

verus! {

/// One cue, as configured.
pub struct CueConfig {
    pub name: Option<String>,
    pub command: String,
}

/// One group, as configured: its members as `fixture:element`.
pub struct GroupConfig {
    pub elements: Vec<String>,
}

/// One effect, as configured. An element contribution has a `target`,
/// written `fixture:element:property`, and a `color`. A pattern has a
/// `target`, written `@group:property`, and a `script`; what else it has are
/// the options of the script.
pub struct EffectConfig {
    pub name: String,
    pub elements: Option<Vec<NameMap<Value>>>,
    pub patterns: Option<Vec<NameMap<Value>>>,
}

/// A show, as configured.
pub struct ShowConfig {
    pub installation: Option<String>,
    pub effects: Vec<EffectConfig>,
    pub groups: NameMap<GroupConfig>,
    pub pool: NameMap<String>,
    pub cues: Vec<CueConfig>,
}

/// Why a show cannot be built.
#[derive(Debug)]
pub enum ShowError {
    /// This target has too few fields, or names no group.
    BadTarget(String),
    /// The text of this script was not given.
    MissingScript(String),
}

/// A `ShowError` as a mathematical value.
pub ghost enum ShowFault {
    BadTarget(Seq<char>),
    MissingScript(Seq<char>),
}

impl View for ShowError {
    type V = ShowFault;

    open spec fn view(&self) -> ShowFault {
        match self {
            ShowError::BadTarget(target) => ShowFault::BadTarget(target@),
            ShowError::MissingScript(script) => ShowFault::MissingScript(script@),
        }
    }
}

/// Where the text of a pattern script is kept.
pub open spec fn script_path(script: Seq<char>) -> Seq<char> {
    "patterns/"@ + script
}

/// Where the text of a pattern script is kept.
pub fn pattern_path(script: &str) -> (path: String)
    ensures
        path@ == script_path(script@),
{
    String::from_str("patterns/").concat(script)
}

/// The text that a table holds under `key`, if it holds a string there.
pub open spec fn text_of(config: &NameMap<Value>, key: Seq<char>) -> Option<Seq<char>> {
    match config.value_of(key) {
        Some(Value::String(text)) => Some(text@),
        _ => None,
    }
}

/// The text that a table holds under `key`, if it holds a string there.
fn text_at<'a>(config: &'a NameMap<Value>, key: &str) -> (text: Option<&'a String>)
    ensures
        match text {
            Some(t) => text_of(config, key@) == Some(t@),
            None => text_of(config, key@) is None,
        },
{
    match config.get(key) {
        Some(Value::String(text)) => Some(text),
        _ => None,
    }
}

/// The items that `plan` makes of `items`, in order, without those that it
/// passes over; or the fault of the first item at which it fails.
pub open spec fn collected<A, B>(
    items: Seq<A>,
    plan: spec_fn(A) -> Result<Option<B>, ShowFault>,
) -> Result<Seq<B>, ShowFault>
    decreases items.len(),
{
    if items.len() == 0 {
        Ok(Seq::empty())
    } else {
        match collected(items.drop_last(), plan) {
            Err(fault) => Err(fault),
            Ok(done) => match plan(items.last()) {
                Err(fault) => Err(fault),
                Ok(Some(item)) => Ok(done.push(item)),
                Ok(None) => Ok(done),
            },
        }
    }
}

/// The element contribution that a table describes. A table without a
/// `target` text or without a `color` is passed over.
pub open spec fn planned_element(config: NameMap<Value>) -> Result<
    Option<EffectElementModel>,
    ShowFault,
> {
    match text_of(&config, "target"@) {
        None => Ok(None),
        Some(target) => match config.value_of("color"@) {
            None => Ok(None),
            Some(value) => if fields(target).len() < 3 {
                Err(ShowFault::BadTarget(target))
            } else {
                Ok(
                    Some(
                        EffectElementModel {
                            target: Target {
                                fixture: fields(target)[0],
                                element: fields(target)[1],
                            },
                            property: fields(target)[2],
                            value,
                        },
                    ),
                )
            },
        },
    }
}

/// Builds the element contribution that a table describes.
fn build_effect_element(config: &NameMap<Value>) -> (built: Result<Option<EffectElement>, ShowError>)
    ensures
        match built {
            Ok(Some(element)) => planned_element(*config) == Ok::<_, ShowFault>(Some(element@)),
            Ok(None) => planned_element(*config) == Ok::<Option<EffectElementModel>, ShowFault>(
                None,
            ),
            Err(error) => planned_element(*config) == Err::<Option<EffectElementModel>, _>(error@),
        },
{
    let target = match text_at(config, "target") {
        Some(target) => target,
        None => {
            return Ok(None);
        },
    };
    let value = match config.get("color") {
        Some(value) => value,
        None => {
            return Ok(None);
        },
    };
    let tokens = split_fields(target.as_str());
    if tokens.len() < 3 {
        return Err(ShowError::BadTarget(target.clone()));
    }
    assert(views(tokens@)[0] == tokens@[0]@ && views(tokens@)[1] == tokens@[1]@ && views(
        tokens@,
    )[2] == tokens@[2]@);
    Ok(
        Some(
            EffectElement::new(
                tokens[0].as_str(),
                tokens[1].as_str(),
                tokens[2].as_str(),
                value,
            ),
        ),
    )
}

/// The entries of the first `n` of a table's entries that are options of a
/// script: all but `target` and `script`.
pub open spec fn options_of(config: &NameMap<Value>, n: int) -> (Seq<Seq<char>>, Seq<Value>)
    decreases n,
{
    if n <= 0 {
        (Seq::empty(), Seq::empty())
    } else {
        let before = options_of(config, n - 1);
        if config.names()[n - 1] == "target"@ || config.names()[n - 1] == "script"@ {
            before
        } else {
            (before.0.push(config.names()[n - 1]), before.1.push(config.values()[n - 1]))
        }
    }
}

/// The options of a script are among the entries of the table, in order.
proof fn lemma_options_are_entries(config: &NameMap<Value>, n: int)
    requires
        0 <= n <= config.names().len(),
    ensures
        options_of(config, n).0.len() == options_of(config, n).1.len(),
        forall|k: int|
            0 <= k < options_of(config, n).0.len() ==> exists|j: int|
                0 <= j < n && config.names()[j] == #[trigger] options_of(config, n).0[k],
    decreases n,
{
    if n > 0 {
        lemma_options_are_entries(config, n - 1);
        let before = options_of(config, n - 1);
        let now = options_of(config, n);
        assert forall|k: int| 0 <= k < now.0.len() implies exists|j: int|
            0 <= j < n && config.names()[j] == #[trigger] now.0[k] by {
            if k < before.0.len() {
                let j = choose|j: int| 0 <= j < n - 1 && config.names()[j] == before.0[k];
                assert(config.names()[j] == now.0[k]);
            } else {
                assert(config.names()[n - 1] == now.0[k]);
            }
        }
    }
}

/// The options of the script that a pattern table describes.
fn script_options(config: &NameMap<Value>) -> (options: NameMap<Value>)
    ensures
        options.names() == options_of(config, config.names().len() as int).0,
        options.values() == options_of(config, config.names().len() as int).1,
{
    let n = config.len();
    let target = String::from_str("target");
    let script = String::from_str("script");
    let mut options: NameMap<Value> = NameMap::new();
    let mut i: usize = 0;
    while i < n
        invariant
            i <= n,
            n == config.names().len(),
            n == config.values().len(),
            config.is_map(),
            target@ == "target"@,
            script@ == "script"@,
            options.names() == options_of(config, i as int).0,
            options.values() == options_of(config, i as int).1,
        decreases n - i,
    {
        let name = config.name(i);
        if !(*name == target || *name == script) {
            let ghost before = options;
            proof {
                lemma_options_are_entries(config, i as int);
                if before.names().contains(name@) {
                    let k = before.names().index_of(name@);
                    assert(before.names()[k] == name@);
                    let j = choose|j: int|
                        0 <= j < i && config.names()[j] == #[trigger] options_of(
                            config,
                            i as int,
                        ).0[k];
                    assert(config.names()[j] == config.names()[i as int]);
                }
            }
            options.insert(name.clone(), config.value(i).duplicate());
        }
        i += 1;
    }
    options
}

/// How many members the group `group` has, if there is such a group.
pub open spec fn group_size(
    group_names: Seq<Seq<char>>,
    groups: Seq<Seq<Target>>,
    group: Seq<char>,
) -> Option<nat> {
    if group_names.contains(group) && group_names.index_of(group) < groups.len() {
        Some(groups[group_names.index_of(group)].len())
    } else {
        None
    }
}

/// The pattern that a table describes, but for whether its script loads. A
/// table without a `target` text, without a `script` text, or whose group
/// the show does not have, is passed over.
pub open spec fn planned_pattern(
    config: NameMap<Value>,
    group_names: Seq<Seq<char>>,
    groups: Seq<Seq<Target>>,
    sources: &NameMap<String>,
) -> Result<Option<PatternModel>, ShowFault> {
    match text_of(&config, "target"@) {
        None => Ok(None),
        Some(target) => if fields(target).len() < 2 || fields(target)[0].len() == 0 {
            Err(ShowFault::BadTarget(target))
        } else {
            match text_of(&config, "script"@) {
                None => Ok(None),
                Some(script) => match group_size(group_names, groups, tail(fields(target)[0])) {
                    None => Ok(None),
                    Some(size) => if sources.contains(script) {
                        Ok(
                            Some(
                                PatternModel {
                                    script_name: script,
                                    group: tail(fields(target)[0]),
                                    property: fields(target)[1],
                                    element_count: size as usize,
                                    option_names: options_of(
                                        &config,
                                        config.names().len() as int,
                                    ).0,
                                    option_values: options_of(
                                        &config,
                                        config.names().len() as int,
                                    ).1,
                                    loaded: false,
                                    fault: None,
                                },
                            ),
                        )
                    } else {
                        Err(ShowFault::MissingScript(script))
                    },
                },
            }
        },
    }
}

/// A pattern without the knowledge of whether its script is loaded.
pub open spec fn unloaded_pattern(pattern: PatternModel) -> PatternModel {
    PatternModel { loaded: false, fault: None, ..pattern }
}

/// Builds the pattern that a table describes. The text of its script is
/// taken from `sources`.
fn build_pattern(config: &NameMap<Value>, groups: &GroupMap, sources: &NameMap<String>) -> (built:
    Result<Option<Pattern>, ShowError>)
    ensures
        match built {
            Ok(Some(pattern)) => planned_pattern(
                *config,
                groups.names(),
                group_targets(groups.values()),
                sources,
            ) == Ok::<_, ShowFault>(Some(unloaded_pattern(pattern@))),
            Ok(None) => planned_pattern(
                *config,
                groups.names(),
                group_targets(groups.values()),
                sources,
            ) == Ok::<Option<PatternModel>, ShowFault>(None),
            Err(error) => planned_pattern(
                *config,
                groups.names(),
                group_targets(groups.values()),
                sources,
            ) == Err::<Option<PatternModel>, _>(error@),
        },
{
    let target = match text_at(config, "target") {
        Some(target) => target,
        None => {
            return Ok(None);
        },
    };
    let tokens = split_fields(target.as_str());
    if tokens.len() < 2 {
        return Err(ShowError::BadTarget(target.clone()));
    }
    assert(views(tokens@)[0] == tokens@[0]@ && views(tokens@)[1] == tokens@[1]@);
    if tokens[0].as_str().unicode_len() == 0 {
        return Err(ShowError::BadTarget(target.clone()));
    }
    let group_name = drop_first_char(tokens[0].as_str());
    let script = match text_at(config, "script") {
        Some(script) => script,
        None => {
            return Ok(None);
        },
    };
    let members = match groups.get(group_name.as_str()) {
        Some(members) => members,
        None => {
            return Ok(None);
        },
    };
    let source = match sources.get(script.as_str()) {
        Some(source) => source,
        None => {
            return Err(ShowError::MissingScript(script.clone()));
        },
    };
    let options = script_options(config);
    Ok(
        Some(
            Pattern::new(
                script.as_str(),
                group_name.as_str(),
                tokens[1].as_str(),
                members.len(),
                options,
                source.as_str(),
            ),
        ),
    )
}

/// The member of a group that a text `fixture:element` names.
pub open spec fn planned_member(text: String) -> Result<Option<Target>, ShowFault> {
    if fields(text@).len() < 2 {
        Err(ShowFault::BadTarget(text@))
    } else {
        Ok(Some(Target { fixture: fields(text@)[0], element: fields(text@)[1] }))
    }
}

/// The plan for the members of a group.
pub open spec fn member_plan() -> spec_fn(String) -> Result<Option<Target>, ShowFault> {
    |text: String| planned_member(text)
}

/// The members of a group, as configured; or the fault of the first text
/// that names none.
pub open spec fn planned_members(config: GroupConfig) -> Result<Seq<Target>, ShowFault> {
    collected(config.elements@, member_plan())
}

/// Builds the members of a group.
fn build_group_elements(config: &GroupConfig) -> (built: Result<Vec<GroupElement>, ShowError>)
    ensures
        match built {
            Ok(members) => planned_members(*config) == Ok::<_, ShowFault>(targets(members@)),
            Err(error) => planned_members(*config) == Err::<Seq<Target>, _>(error@),
        },
{
    let ghost plan = member_plan();
    let mut members: Vec<GroupElement> = Vec::new();
    let mut i: usize = 0;
    assert(config.elements@.take(0) =~= Seq::<String>::empty());
    assert(targets(members@) =~= Seq::<Target>::empty());
    while i < config.elements.len()
        invariant
            i <= config.elements.len(),
            plan == member_plan(),
            collected(config.elements@.take(i as int), plan) == Ok::<_, ShowFault>(
                targets(members@),
            ),
        decreases config.elements.len() - i,
    {
        let text = &config.elements[i];
        let ghost done = targets(members@);
        proof {
            let next = config.elements@.take(i + 1);
            assert(next.drop_last() =~= config.elements@.take(i as int));
            assert(next.last() == *text);
        }
        let parts = split_fields(text.as_str());
        if parts.len() < 2 {
            proof {
                lemma_collected_fails(config.elements@, plan, i as int);
            }
            return Err(ShowError::BadTarget(text.clone()));
        }
        assert(views(parts@)[0] == parts@[0]@ && views(parts@)[1] == parts@[1]@);
        members.push(GroupElement { fixture: parts[0].clone(), element: parts[1].clone() });
        assert(targets(members@) =~= done.push(
            Target { fixture: fields(text@)[0], element: fields(text@)[1] },
        ));
        i += 1;
    }
    assert(config.elements@.take(config.elements.len() as int) =~= config.elements@);
    Ok(members)
}

/// Where the plan fails at an item and at none before it, it fails for the
/// whole list, with the fault of that item.
pub proof fn lemma_collected_fails<A, B>(
    items: Seq<A>,
    plan: spec_fn(A) -> Result<Option<B>, ShowFault>,
    i: int,
)
    requires
        0 <= i < items.len(),
        collected(items.take(i), plan) is Ok,
        plan(items[i]) is Err,
    ensures
        collected(items, plan) == Err::<Seq<B>, _>(plan(items[i])->Err_0),
    decreases items.len() - i,
{
    let next = items.take(i + 1);
    assert(next.drop_last() =~= items.take(i));
    assert(next.last() == items[i]);
    lemma_collected_failed(items, plan, i + 1);
}

/// A failure among the first items is the failure of the whole list.
pub proof fn lemma_collected_failed<A, B>(
    items: Seq<A>,
    plan: spec_fn(A) -> Result<Option<B>, ShowFault>,
    n: int,
)
    requires
        0 <= n <= items.len(),
        collected(items.take(n), plan) is Err,
    ensures
        collected(items, plan) == collected(items.take(n), plan),
    decreases items.len() - n,
{
    if n < items.len() {
        let next = items.take(n + 1);
        assert(next.drop_last() =~= items.take(n));
        lemma_collected_failed(items, plan, n + 1);
    } else {
        assert(items.take(n) =~= items);
    }
}

/// The plan for the element contributions of an effect.
pub open spec fn element_plan() -> spec_fn(NameMap<Value>) -> Result<
    Option<EffectElementModel>,
    ShowFault,
> {
    |config: NameMap<Value>| planned_element(config)
}

/// The plan for the patterns of an effect.
pub open spec fn pattern_plan(
    group_names: Seq<Seq<char>>,
    groups: Seq<Seq<Target>>,
    sources: &NameMap<String>,
) -> spec_fn(NameMap<Value>) -> Result<Option<PatternModel>, ShowFault> {
    |config: NameMap<Value>| planned_pattern(config, group_names, groups, sources)
}

/// The plan for the groups of a show.
pub open spec fn group_plan() -> spec_fn(GroupConfig) -> Result<Option<Seq<Target>>, ShowFault> {
    |config: GroupConfig|
        match planned_members(config) {
            Ok(members) => Ok(Some(members)),
            Err(fault) => Err(fault),
        }
}

/// The element contributions of an effect, as configured.
pub open spec fn planned_elements(config: &EffectConfig) -> Result<
    Seq<EffectElementModel>,
    ShowFault,
> {
    match config.elements {
        Some(tables) => collected(tables@, element_plan()),
        None => Ok(Seq::empty()),
    }
}

/// The patterns of an effect, as configured, none of them loaded.
pub open spec fn planned_patterns(
    config: &EffectConfig,
    group_names: Seq<Seq<char>>,
    groups: Seq<Seq<Target>>,
    sources: &NameMap<String>,
) -> Result<Seq<PatternModel>, ShowFault> {
    match config.patterns {
        Some(tables) => collected(tables@, pattern_plan(group_names, groups, sources)),
        None => Ok(Seq::empty()),
    }
}

/// The effect that a configuration describes: switched off, with its
/// element contributions and then its patterns.
pub open spec fn planned_effect(
    config: EffectConfig,
    group_names: Seq<Seq<char>>,
    groups: Seq<Seq<Target>>,
    sources: &NameMap<String>,
) -> Result<Option<EffectModel>, ShowFault> {
    match planned_elements(&config) {
        Err(fault) => Err(fault),
        Ok(elements) => match planned_patterns(&config, group_names, groups, sources) {
            Err(fault) => Err(fault),
            Ok(patterns) => Ok(
                Some(EffectModel { name: config.name@, strength: 0, elements, patterns }),
            ),
        },
    }
}

/// The plan for the effects of a show.
pub open spec fn effect_plan(
    group_names: Seq<Seq<char>>,
    groups: Seq<Seq<Target>>,
    sources: &NameMap<String>,
) -> spec_fn(EffectConfig) -> Result<Option<EffectModel>, ShowFault> {
    |config: EffectConfig| planned_effect(config, group_names, groups, sources)
}

/// Where the installation of a show is described, if the show does not say.
pub open spec fn default_installation() -> Seq<char> {
    "installation.toml"@
}

/// The effect pool that a configuration describes, none of its patterns
/// loaded: first the groups, then the effects in order, each switched off,
/// then the keys. It is the fault of the first group or effect that cannot
/// be built where there is one.
pub open spec fn planned_show(config: &ShowConfig, sources: &NameMap<String>) -> Result<
    EffectPoolModel,
    ShowFault,
> {
    match collected(config.groups.values(), group_plan()) {
        Err(fault) => Err(fault),
        Ok(groups) => match collected(
            config.effects@,
            effect_plan(config.groups.names(), groups, sources),
        ) {
            Err(fault) => Err(fault),
            Ok(effects) => Ok(
                EffectPoolModel {
                    effects,
                    group_names: config.groups.names(),
                    groups,
                    installation: match config.installation {
                        Some(path) => path@,
                        None => default_installation(),
                    },
                    keys: config.pool.names(),
                    bound: views(config.pool.values()),
                    queue: Seq::empty(),
                },
            ),
        },
    }
}

/// Every item of a list takes part in what is collected of it: the result
/// has as many items as the plan made.
pub proof fn lemma_collected_step<A, B>(
    items: Seq<A>,
    plan: spec_fn(A) -> Result<Option<B>, ShowFault>,
    i: int,
)
    requires
        0 <= i < items.len(),
    ensures
        collected(items.take(i + 1), plan) == match collected(items.take(i), plan) {
            Err(fault) => Err::<Seq<B>, _>(fault),
            Ok(done) => match plan(items[i]) {
                Err(fault) => Err(fault),
                Ok(Some(item)) => Ok(done.push(item)),
                Ok(None) => Ok(done),
            },
        },
{
    let next = items.take(i + 1);
    assert(next.drop_last() =~= items.take(i));
    assert(next.last() == items[i]);
}

/// Builds the element contributions of an effect.
fn build_elements(tables: &Vec<NameMap<Value>>) -> (built: Result<Vec<EffectElement>, ShowError>)
    ensures
        match built {
            Ok(elements) => collected(tables@, element_plan()) == Ok::<_, ShowFault>(
                element_models(elements@),
            ),
            Err(error) => collected(tables@, element_plan()) == Err::<Seq<EffectElementModel>, _>(
                error@,
            ),
        },
{
    let ghost plan = element_plan();
    let mut elements: Vec<EffectElement> = Vec::new();
    let mut i: usize = 0;
    assert(tables@.take(0) =~= Seq::<NameMap<Value>>::empty());
    assert(element_models(elements@) =~= Seq::<EffectElementModel>::empty());
    while i < tables.len()
        invariant
            i <= tables.len(),
            plan == element_plan(),
            collected(tables@.take(i as int), plan) == Ok::<_, ShowFault>(
                element_models(elements@),
            ),
        decreases tables.len() - i,
    {
        let ghost done = element_models(elements@);
        proof {
            lemma_collected_step(tables@, plan, i as int);
        }
        match build_effect_element(&tables[i]) {
            Ok(Some(element)) => {
                elements.push(element);
                assert(element_models(elements@) =~= done.push(element@));
            },
            Ok(None) => {},
            Err(error) => {
                proof {
                    lemma_collected_failed(tables@, plan, i + 1);
                }
                return Err(error);
            },
        }
        i += 1;
    }
    assert(tables@.take(tables.len() as int) =~= tables@);
    Ok(elements)
}

/// The models of a list of patterns, none of them loaded.
pub open spec fn unloaded_patterns(patterns: Seq<Pattern>) -> Seq<PatternModel> {
    Seq::new(patterns.len(), |i: int| unloaded_pattern(patterns[i]@))
}

/// Builds the patterns of an effect.
fn build_patterns(
    tables: &Vec<NameMap<Value>>,
    groups: &GroupMap,
    sources: &NameMap<String>,
) -> (built: Result<Vec<Pattern>, ShowError>)
    ensures
        match built {
            Ok(patterns) => collected(
                tables@,
                pattern_plan(groups.names(), group_targets(groups.values()), sources),
            ) == Ok::<_, ShowFault>(unloaded_patterns(patterns@)),
            Err(error) => collected(
                tables@,
                pattern_plan(groups.names(), group_targets(groups.values()), sources),
            ) == Err::<Seq<PatternModel>, _>(error@),
        },
{
    let ghost plan = pattern_plan(groups.names(), group_targets(groups.values()), sources);
    let mut patterns: Vec<Pattern> = Vec::new();
    let mut i: usize = 0;
    assert(tables@.take(0) =~= Seq::<NameMap<Value>>::empty());
    assert(unloaded_patterns(patterns@) =~= Seq::<PatternModel>::empty());
    while i < tables.len()
        invariant
            i <= tables.len(),
            plan == pattern_plan(groups.names(), group_targets(groups.values()), sources),
            collected(tables@.take(i as int), plan) == Ok::<_, ShowFault>(
                unloaded_patterns(patterns@),
            ),
        decreases tables.len() - i,
    {
        let ghost done = unloaded_patterns(patterns@);
        proof {
            lemma_collected_step(tables@, plan, i as int);
        }
        match build_pattern(&tables[i], groups, sources) {
            Ok(Some(pattern)) => {
                let ghost model = unloaded_pattern(pattern@);
                patterns.push(pattern);
                assert(unloaded_patterns(patterns@) =~= done.push(model));
            },
            Ok(None) => {},
            Err(error) => {
                proof {
                    lemma_collected_failed(tables@, plan, i + 1);
                }
                return Err(error);
            },
        }
        i += 1;
    }
    assert(tables@.take(tables.len() as int) =~= tables@);
    Ok(patterns)
}

/// Builds the effect that a configuration describes.
fn build_effect(config: &EffectConfig, groups: &GroupMap, sources: &NameMap<String>) -> (built:
    Result<Effect, ShowError>)
    ensures
        match built {
            Ok(effect) => planned_effect(
                *config,
                groups.names(),
                group_targets(groups.values()),
                sources,
            ) == Ok::<_, ShowFault>(Some(unloaded(effect@))),
            Err(error) => planned_effect(
                *config,
                groups.names(),
                group_targets(groups.values()),
                sources,
            ) == Err::<Option<EffectModel>, _>(error@),
        },
{
    let elements = match &config.elements {
        Some(tables) => build_elements(tables)?,
        None => Vec::new(),
    };
    assert(config.elements is None ==> element_models(elements@) =~= Seq::<
        EffectElementModel,
    >::empty());
    let patterns = match &config.patterns {
        Some(tables) => build_patterns(tables, groups, sources)?,
        None => Vec::new(),
    };
    assert(config.patterns is None ==> unloaded_patterns(patterns@) =~= Seq::<
        PatternModel,
    >::empty());
    let effect = Effect::new(config.name.as_str(), 0, elements, patterns);
    assert(unloaded(effect@).patterns =~= unloaded_patterns(patterns@));
    Ok(effect)
}

/// Builds the groups of a show.
fn build_groups(configs: &NameMap<GroupConfig>) -> (built: Result<GroupMap, ShowError>)
    ensures
        match built {
            Ok(groups) => {
                &&& groups.names() == configs.names()
                &&& collected(configs.values(), group_plan()) == Ok::<_, ShowFault>(
                    group_targets(groups.values()),
                )
            },
            Err(error) => collected(configs.values(), group_plan()) == Err::<
                Seq<Seq<Target>>,
                _,
            >(error@),
        },
{
    let ghost plan = group_plan();
    let n = configs.len();
    let mut groups: GroupMap = NameMap::new();
    let mut i: usize = 0;
    assert(configs.values().take(0) =~= Seq::<GroupConfig>::empty());
    assert(group_targets(groups.values()) =~= Seq::<Seq<Target>>::empty());
    assert(groups.names() =~= configs.names().take(0));
    while i < n
        invariant
            i <= n,
            n == configs.names().len(),
            n == configs.values().len(),
            configs.is_map(),
            plan == group_plan(),
            groups.names() == configs.names().take(i as int),
            collected(configs.values().take(i as int), plan) == Ok::<_, ShowFault>(
                group_targets(groups.values()),
            ),
        decreases n - i,
    {
        let ghost before = groups;
        let ghost done = group_targets(groups.values());
        proof {
            lemma_collected_step(configs.values(), plan, i as int);
        }
        let name = configs.name(i).clone();
        match build_group_elements(configs.value(i)) {
            Ok(members) => {
                assert(!before.names().contains(name@)) by {
                    if before.names().contains(name@) {
                        let k = before.names().index_of(name@);
                        assert(before.names()[k] == name@);
                        assert(configs.names()[k] == name@);
                    }
                }
                let ghost model = targets(members@);
                groups.insert(name, members);
                assert(groups.names() =~= configs.names().take(i + 1));
                assert(group_targets(groups.values()) =~= done.push(model));
            },
            Err(error) => {
                proof {
                    lemma_collected_failed(configs.values(), plan, i + 1);
                }
                return Err(error);
            },
        }
        i += 1;
    }
    assert(configs.names().take(n as int) =~= configs.names());
    assert(configs.values().take(n as int) =~= configs.values());
    Ok(groups)
}

/// The models of a list of effects, none of their patterns loaded.
pub open spec fn unloaded_effects(effects: Seq<Effect>) -> Seq<EffectModel> {
    Seq::new(effects.len(), |i: int| unloaded(effects[i]@))
}

/// Builds the effect pool that `config` describes. `sources` holds the text
/// of each pattern script under the name of the script. It fails at the
/// first group or effect that cannot be built.
pub fn build_from_config(config: &ShowConfig, sources: &NameMap<String>) -> (built: Result<
    EffectPool,
    ShowError,
>)
    ensures
        match built {
            Ok(pool) => planned_show(config, sources) == Ok::<_, ShowFault>(
                pool@.without_scripts(),
            ),
            Err(error) => planned_show(config, sources) == Err::<EffectPoolModel, _>(error@),
        },
{
    let groups = build_groups(&config.groups)?;
    let ghost plan = effect_plan(groups.names(), group_targets(groups.values()), sources);
    let mut effects: Vec<Effect> = Vec::new();
    let mut i: usize = 0;
    assert(config.effects@.take(0) =~= Seq::<EffectConfig>::empty());
    assert(unloaded_effects(effects@) =~= Seq::<EffectModel>::empty());
    while i < config.effects.len()
        invariant
            i <= config.effects.len(),
            groups.names() == config.groups.names(),
            collected(config.groups.values(), group_plan()) == Ok::<_, ShowFault>(
                group_targets(groups.values()),
            ),
            plan == effect_plan(groups.names(), group_targets(groups.values()), sources),
            collected(config.effects@.take(i as int), plan) == Ok::<_, ShowFault>(
                unloaded_effects(effects@),
            ),
        decreases config.effects.len() - i,
    {
        let ghost done = unloaded_effects(effects@);
        proof {
            lemma_collected_step(config.effects@, plan, i as int);
        }
        match build_effect(&config.effects[i], &groups, sources) {
            Ok(effect) => {
                let ghost model = unloaded(effect@);
                effects.push(effect);
                assert(unloaded_effects(effects@) =~= done.push(model));
            },
            Err(error) => {
                proof {
                    lemma_collected_failed(config.effects@, plan, i + 1);
                }
                return Err(error);
            },
        }
        i += 1;
    }
    assert(config.effects@.take(config.effects.len() as int) =~= config.effects@);
    let installation = match &config.installation {
        Some(path) => path.clone(),
        None => String::from_str("installation.toml"),
    };
    let ghost built_effects = effects@;
    let mut pool = EffectPool::new(effects, groups, installation);
    let n = config.pool.len();
    let mut k: usize = 0;
    assert(pool@.keys =~= config.pool.names().take(0));
    assert(pool@.bound =~= views(config.pool.values()).take(0));
    while k < n
        invariant
            k <= n,
            n == config.pool.names().len(),
            n == config.pool.values().len(),
            config.pool.is_map(),
            pool@ == (EffectPoolModel {
                keys: config.pool.names().take(k as int),
                bound: views(config.pool.values()).take(k as int),
                ..pool@
            }),
            pool@.effects == effect_models(built_effects),
            pool@.group_names == config.groups.names(),
            collected(config.groups.values(), group_plan()) == Ok::<_, ShowFault>(pool@.groups),
            pool@.installation == match config.installation {
                Some(path) => path@,
                None => default_installation(),
            },
            pool@.queue == Seq::<Seq<char>>::empty(),
        decreases n - k,
    {
        let ghost before = pool@;
        assert(!before.keys.contains(config.pool.names()[k as int])) by {
            if before.keys.contains(config.pool.names()[k as int]) {
                let j = before.keys.index_of(config.pool.names()[k as int]);
                assert(before.keys[j] == config.pool.names()[k as int]);
                assert(config.pool.names()[j] == config.pool.names()[k as int]);
            }
        }
        pool.set_key(config.pool.name(k).as_str(), config.pool.value(k).as_str());
        assert(pool@.keys =~= config.pool.names().take(k + 1));
        assert(pool@.bound =~= views(config.pool.values()).take(k + 1));
        k += 1;
    }
    assert(config.pool.names().take(n as int) =~= config.pool.names());
    assert(views(config.pool.values()).take(n as int) =~= views(config.pool.values()));
    assert(pool@.without_scripts().effects =~= unloaded_effects(built_effects));
    Ok(pool)
}

/// The name of the cue at place `index`: its number, counted from 1, and
/// behind it, after a space, the name that the configuration gives it.
pub open spec fn cue_name(index: int, name: Option<String>) -> Seq<char> {
    match name {
        Some(text) => decimal_digits((index + 1) as nat) + " "@ + text@,
        None => decimal_digits((index + 1) as nat),
    }
}

/// The cues that a configuration describes.
pub open spec fn planned_cues(cues: Seq<CueConfig>) -> Seq<CueModel> {
    Seq::new(
        cues.len(),
        |i: int| CueModel { name: cue_name(i, cues[i].name), command: cues[i].command@ },
    )
}

/// Builds the cue list that `config` describes.
pub fn build_cue_list_from_config(config: &ShowConfig) -> (list: CueList)
    ensures
        list@ == planned_cues(config.cues@),
{
    let mut list = CueList::new();
    let mut i: usize = 0;
    assert(list@ =~= planned_cues(config.cues@).take(0));
    while i < config.cues.len()
        invariant
            i <= config.cues.len(),
            list@ == planned_cues(config.cues@).take(i as int),
        decreases config.cues.len() - i,
    {
        let cue = &config.cues[i];
        let number = decimal_text(i + 1);
        let name = match &cue.name {
            Some(text) => number.concat(" ").concat(text.as_str()),
            None => number,
        };
        list.add(name.as_str(), cue.command.as_str());
        assert(list@ =~= planned_cues(config.cues@).take(i + 1));
        i += 1;
    }
    assert(planned_cues(config.cues@).take(config.cues.len() as int) =~= planned_cues(
        config.cues@,
    ));
    list
}

impl CueList {
    /// The cue list that `config` describes.
    pub fn new_from_config(config: &ShowConfig) -> (list: CueList)
        ensures
            list@ == planned_cues(config.cues@),
    {
        build_cue_list_from_config(config)
    }
}

impl EffectPool {
    /// The effect pool that `config` describes, with the text of each
    /// pattern script taken from `sources`.
    pub fn new_from_config(config: &ShowConfig, sources: &NameMap<String>) -> (built: Result<
        EffectPool,
        ShowError,
    >)
        ensures
            match built {
                Ok(pool) => planned_show(config, sources) == Ok::<_, ShowFault>(
                    pool@.without_scripts(),
                ),
                Err(error) => planned_show(config, sources) == Err::<EffectPoolModel, _>(error@),
            },
    {
        build_from_config(config, sources)
    }
}

} // verus!
