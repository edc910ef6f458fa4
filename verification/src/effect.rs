//! Effects, the effect pool and the commands that drive it.
use crate::fixture::{Element, ElementKind};
use crate::installation::{
    lemma_layout_decides_wf, lemma_with_kind_keeps_layout, lemma_zeroed_keeps_layout, Installation,
    InstallationModel,
};
use crate::light::{mix_intensity, mixed_intensity, Color, Rgb, Strength, FULL};
use crate::names::NameMap;
use crate::pattern::{Pattern, PatternModel};
use crate::text::views;
use crate::value::Value;
use vstd::prelude::*;

verus! {

/// What a command does to the effect that its key is bound to.
#[derive(PartialEq, Debug, Clone)]
pub enum Action {
    Toggle,
}

/// A key of the control surface together with an action.
#[derive(Debug, PartialEq, Clone)]
pub struct Command {
    pub key: String,
    pub action: Action,
}

/// One member of a group: an element of a fixture, by name.
#[derive(Debug)]
pub struct GroupElement {
    pub fixture: String,
    pub element: String,
}

/// The names of a fixture and of one of its elements.
pub ghost struct Target {
    pub fixture: Seq<char>,
    pub element: Seq<char>,
}

impl View for GroupElement {
    type V = Target;

    open spec fn view(&self) -> Target {
        Target { fixture: self.fixture@, element: self.element@ }
    }
}

/// The groups of a show: each name stands for an ordered list of elements.
pub type GroupMap = NameMap<Vec<GroupElement>>;

/// The models of a list of group elements.
pub open spec fn targets(elements: Seq<GroupElement>) -> Seq<Target> {
    Seq::new(elements.len(), |i: int| elements[i]@)
}

/// The new strength of an effect that is toggled: off if it was on at all,
/// fully on if it was off.
pub open spec fn toggled(strength: Strength) -> Strength {
    if strength > 0 {
        0
    } else {
        FULL
    }
}

/// Toggling twice gives back the strength exactly where the effect was off
/// or fully on.
pub proof fn lemma_toggle_twice(strength: Strength)
    ensures
        toggled(toggled(strength)) == strength <==> (strength == 0 || strength == FULL),
{
}

/// The kind of an element after `value` has been mixed in at `strength`.
/// An intensity gets the low byte of `value` added; a colour gets the colour
/// `0xRRGGBB` of `value` added, scaled; UV and the stateless kinds stay.
pub open spec fn mixed_kind(kind: ElementKind, value: i32, strength: Strength) -> ElementKind {
    match kind {
        ElementKind::Intensity(i) => ElementKind::Intensity(
            mixed_intensity(i as int, value as int, strength as int) as u32,
        ),
        ElementKind::Rgbi(c) => ElementKind::Rgbi(
            Color::of(c@.plus(Rgb::unpacked(value as int).scaled(strength as int))),
        ),
        ElementKind::Rgbiu { rgb, uv } => ElementKind::Rgbiu {
            rgb: Color::of(rgb@.plus(Rgb::unpacked(value as int).scaled(strength as int))),
            uv,
        },
        other => other,
    }
}

/// The installation after `value` has been mixed into the element `element`
/// of the fixture `fixture`. Where there is no such element nothing changes.
pub open spec fn mixed_into(
    installation: InstallationModel,
    target: Target,
    value: i32,
    strength: Strength,
) -> InstallationModel {
    match installation.locate(target.fixture, target.element) {
        Some(at) => installation.with_kind(
            at,
            mixed_kind(installation.element(at).kind, value, strength),
        ),
        None => installation,
    }
}

/// An element contribution as a mathematical value.
pub ghost struct EffectElementModel {
    pub target: Target,
    pub property: Seq<char>,
    pub value: Value,
}

/// The installation after the static contributions `elements` have been
/// mixed in, in order. One whose value is no integer is passed over.
pub open spec fn mixed_statics(
    installation: InstallationModel,
    elements: Seq<EffectElementModel>,
    strength: Strength,
) -> InstallationModel
    decreases elements.len(),
{
    if elements.len() == 0 {
        installation
    } else {
        let before = mixed_statics(installation, elements.drop_last(), strength);
        match elements.last().value.as_mix_value() {
            Some(value) => mixed_into(before, elements.last().target, value, strength),
            None => before,
        }
    }
}

/// The installation after the first `n` of `values` have been mixed into the
/// first `n` of `targets`, pair by pair.
pub open spec fn mixed_pairs(
    installation: InstallationModel,
    targets: Seq<Target>,
    values: Seq<i32>,
    n: int,
    strength: Strength,
) -> InstallationModel
    decreases n,
{
    if n <= 0 {
        installation
    } else {
        mixed_into(
            mixed_pairs(installation, targets, values, n - 1, strength),
            targets[n - 1],
            values[n - 1],
            strength,
        )
    }
}

/// The installation after `values` have been mixed into `targets`, pair by
/// pair; what the longer of the two has beyond the shorter is left out.
pub open spec fn mixed_values(
    installation: InstallationModel,
    targets: Seq<Target>,
    values: Seq<i32>,
    strength: Strength,
) -> InstallationModel {
    let n = if targets.len() < values.len() {
        targets.len()
    } else {
        values.len()
    };
    mixed_pairs(installation, targets, values, n as int, strength)
}

/// The members of the group called `name`, if there is such a group.
pub open spec fn group_members(
    group_names: Seq<Seq<char>>,
    groups: Seq<Seq<Target>>,
    name: Seq<char>,
) -> Option<Seq<Target>> {
    if group_names.contains(name) && group_names.index_of(name) < groups.len() {
        Some(groups[group_names.index_of(name)])
    } else {
        None
    }
}

/// The installation after the first `n` of `patterns` have mixed in what
/// they yielded: pattern `k` yielded `frames[k]`, which goes to the members
/// of its group. A pattern whose group does not exist is passed over.
pub open spec fn mixed_frames(
    installation: InstallationModel,
    group_names: Seq<Seq<char>>,
    groups: Seq<Seq<Target>>,
    patterns: Seq<PatternModel>,
    frames: Seq<Seq<i32>>,
    n: int,
    strength: Strength,
) -> InstallationModel
    decreases n,
{
    if n <= 0 {
        installation
    } else {
        let before = mixed_frames(
            installation,
            group_names,
            groups,
            patterns,
            frames,
            n - 1,
            strength,
        );
        match group_members(group_names, groups, patterns[n - 1].group) {
            Some(members) => mixed_values(before, members, frames[n - 1], strength),
            None => before,
        }
    }
}

/// Whether `frames` can be what `patterns` yielded in one frame: one list
/// per pattern, and an empty one for every pattern that is not loaded.
pub open spec fn frames_fit(patterns: Seq<PatternModel>, frames: Seq<Seq<i32>>) -> bool {
    &&& frames.len() == patterns.len()
    &&& forall|k: int|
        0 <= k < patterns.len() && !(#[trigger] patterns[k]).loaded ==> frames[k].len() == 0
}

/// What the patterns yield beyond the first `n` does not matter to what the
/// first `n` mix in.
pub proof fn lemma_mixed_frames_prefix(
    installation: InstallationModel,
    group_names: Seq<Seq<char>>,
    groups: Seq<Seq<Target>>,
    patterns: Seq<PatternModel>,
    a: Seq<Seq<i32>>,
    b: Seq<Seq<i32>>,
    n: int,
    strength: Strength,
)
    requires
        n <= a.len(),
        n <= b.len(),
        forall|k: int| 0 <= k < n ==> a[k] == b[k],
    ensures
        mixed_frames(installation, group_names, groups, patterns, a, n, strength) == mixed_frames(
            installation,
            group_names,
            groups,
            patterns,
            b,
            n,
            strength,
        ),
    decreases n,
{
    if n > 0 {
        lemma_mixed_frames_prefix(installation, group_names, groups, patterns, a, b, n - 1, strength);
    }
}

/// Mixing frames in keeps the layout.
pub proof fn lemma_mixed_frames_keeps_layout(
    installation: InstallationModel,
    group_names: Seq<Seq<char>>,
    groups: Seq<Seq<Target>>,
    patterns: Seq<PatternModel>,
    frames: Seq<Seq<i32>>,
    n: int,
    strength: Strength,
)
    ensures
        mixed_frames(
            installation,
            group_names,
            groups,
            patterns,
            frames,
            n,
            strength,
        ).layout() == installation.layout(),
    decreases n,
{
    if n > 0 {
        lemma_mixed_frames_keeps_layout(
            installation,
            group_names,
            groups,
            patterns,
            frames,
            n - 1,
            strength,
        );
        let before = mixed_frames(
            installation,
            group_names,
            groups,
            patterns,
            frames,
            n - 1,
            strength,
        );
        match group_members(group_names, groups, patterns[n - 1].group) {
            Some(members) => {
                let count = if members.len() < frames[n - 1].len() {
                    members.len()
                } else {
                    frames[n - 1].len()
                };
                lemma_mixed_pairs_keeps_layout(before, members, frames[n - 1], count as int, strength);
            },
            None => {},
        }
    }
}

/// Mixing a value in keeps the layout.
pub proof fn lemma_mixed_into_keeps_layout(
    installation: InstallationModel,
    target: Target,
    value: i32,
    strength: Strength,
)
    ensures
        mixed_into(installation, target, value, strength).layout() == installation.layout(),
{
    match installation.locate(target.fixture, target.element) {
        Some(at) => {
            lemma_with_kind_keeps_layout(
                installation,
                at,
                mixed_kind(installation.element(at).kind, value, strength),
            );
        },
        None => {},
    }
}

/// The value `value` given to one element, mixed in at a strength.
pub struct EffectElement {
    fixture: String,
    element: String,
    property: String,
    value: Value,
}

impl View for EffectElement {
    type V = EffectElementModel;

    closed spec fn view(&self) -> EffectElementModel {
        EffectElementModel {
            target: Target { fixture: self.fixture@, element: self.element@ },
            property: self.property@,
            value: self.value,
        }
    }
}

impl EffectElement {
    pub fn new(fixture: &str, element: &str, property: &str, value: &Value) -> (made: EffectElement)
        ensures
            made@ == (EffectElementModel {
                target: Target { fixture: fixture@, element: element@ },
                property: property@,
                value: *value,
            }),
    {
        EffectElement {
            fixture: fixture.to_owned(),
            element: element.to_owned(),
            property: property.to_owned(),
            value: value.duplicate(),
        }
    }
}

/// The models of a list of element contributions.
pub open spec fn element_models(elements: Seq<EffectElement>) -> Seq<EffectElementModel> {
    Seq::new(elements.len(), |i: int| elements[i]@)
}

/// The models of a list of patterns.
pub open spec fn pattern_models(patterns: Seq<Pattern>) -> Seq<PatternModel> {
    Seq::new(patterns.len(), |i: int| patterns[i]@)
}

/// The kind that `element` gets when `new_value` is mixed in, if its kind
/// takes part in mixing at all.
fn mix_into_element_kind(element: &Element, new_value: i32, strength: Strength) -> (kind: Option<
    ElementKind,
>)
    ensures
        match kind {
            Some(k) => k == mixed_kind(element@.kind, new_value, strength),
            None => element@.kind == mixed_kind(element@.kind, new_value, strength),
        },
{
    match element.kind() {
        ElementKind::Intensity(intensity) => {
            Some(ElementKind::Intensity(mix_intensity(*intensity, new_value, strength)))
        },
        ElementKind::Rgbi(color) => {
            let mut effect_color = Color::from(new_value);
            effect_color.scale(strength);
            let sum = *color + effect_color;
            proof {
                let rgb = color@.plus(Rgb::unpacked(new_value as int).scaled(strength as int));
                Color::lemma_of_view(rgb);
                Color::lemma_view_injective(sum, Color::of(rgb));
            }
            Some(ElementKind::Rgbi(sum))
        },
        ElementKind::Rgbiu { rgb: color, uv } => {
            let mut effect_color = Color::from(new_value);
            effect_color.scale(strength);
            let sum = *color + effect_color;
            proof {
                let rgb = color@.plus(Rgb::unpacked(new_value as int).scaled(strength as int));
                Color::lemma_of_view(rgb);
                Color::lemma_view_injective(sum, Color::of(rgb));
            }
            Some(ElementKind::Rgbiu { rgb: sum, uv: *uv })
        },
        _ => None,
    }
}

/// Mixes `value` into the element `element` of the fixture `fixture`, if the
/// installation has it.
pub fn mix_element(
    installation: &mut Installation,
    fixture: &str,
    element: &str,
    value: i32,
    strength: Strength,
)
    ensures
        final(installation)@ == mixed_into(
            old(installation)@,
            Target { fixture: fixture@, element: element@ },
            value,
            strength,
        ),
{
    match installation.find_element(fixture, element) {
        Some(found) => {
            match mix_into_element_kind(found, value, strength) {
                Some(kind) => {
                    found.set_kind(kind);
                },
                None => {},
            }
        },
        None => {},
    }
}

/// Mixes the static contributions `elements` into the installation, in
/// order. One whose value is no integer is passed over.
pub fn apply_elements(
    installation: &mut Installation,
    elements: &Vec<EffectElement>,
    strength: Strength,
)
    ensures
        final(installation)@ == mixed_statics(
            old(installation)@,
            element_models(elements@),
            strength,
        ),
{
    let ghost models = element_models(elements@);
    let mut i: usize = 0;
    assert(models.take(0) =~= Seq::<EffectElementModel>::empty());
    while i < elements.len()
        invariant
            i <= elements.len(),
            models == element_models(elements@),
            installation@ == mixed_statics(old(installation)@, models.take(i as int), strength),
        decreases elements.len() - i,
    {
        let contribution = &elements[i];
        proof {
            let next = models.take(i + 1);
            assert(next.drop_last() =~= models.take(i as int));
            assert(next.last() == contribution@);
        }
        match contribution.value.mix_value() {
            Some(value) => {
                mix_element(
                    installation,
                    contribution.fixture.as_str(),
                    contribution.element.as_str(),
                    value,
                    strength,
                );
            },
            None => {},
        }
        i += 1;
    }
    assert(models.take(elements.len() as int) =~= models);
}

/// Mixes the values of a pattern into the elements of its group, pair by
/// pair; what the longer of the two lists has beyond the shorter is left out.
pub fn apply_values(
    installation: &mut Installation,
    group: &Vec<GroupElement>,
    values: &Vec<i32>,
    strength: Strength,
)
    ensures
        final(installation)@ == mixed_values(
            old(installation)@,
            targets(group@),
            values@,
            strength,
        ),
{
    let n = if group.len() < values.len() {
        group.len()
    } else {
        values.len()
    };
    let mut i: usize = 0;
    while i < n
        invariant
            i <= n,
            n <= group.len(),
            n <= values.len(),
            installation@ == mixed_pairs(
                old(installation)@,
                targets(group@),
                values@,
                i as int,
                strength,
            ),
        decreases n - i,
    {
        let member = &group[i];
        mix_element(
            installation,
            member.fixture.as_str(),
            member.element.as_str(),
            values[i],
            strength,
        );
        i += 1;
    }
}

/// An effect as a mathematical value.
pub ghost struct EffectModel {
    pub name: Seq<char>,
    pub strength: Strength,
    pub elements: Seq<EffectElementModel>,
    pub patterns: Seq<PatternModel>,
}

/// The installation after `effect` has been mixed in at its strength, its
/// patterns having yielded `frames`: first the static contributions, then
/// the frames, pattern by pattern.
pub open spec fn mixed_effect(
    installation: InstallationModel,
    group_names: Seq<Seq<char>>,
    groups: Seq<Seq<Target>>,
    effect: EffectModel,
    frames: Seq<Seq<i32>>,
) -> InstallationModel {
    mixed_frames(
        mixed_statics(installation, effect.elements, effect.strength),
        group_names,
        groups,
        effect.patterns,
        frames,
        effect.patterns.len() as int,
        effect.strength,
    )
}

/// A named, weighted contribution: static values for single elements, and
/// patterns for groups.
pub struct Effect {
    name: String,
    strength: Strength,
    effect_elements: Vec<EffectElement>,
    effect_patterns: Vec<Pattern>,
}

impl View for Effect {
    type V = EffectModel;

    closed spec fn view(&self) -> EffectModel {
        EffectModel {
            name: self.name@,
            strength: self.strength,
            elements: element_models(self.effect_elements@),
            patterns: pattern_models(self.effect_patterns@),
        }
    }
}

/// Mixing static contributions in keeps the layout.
pub proof fn lemma_mixed_statics_keeps_layout(
    installation: InstallationModel,
    elements: Seq<EffectElementModel>,
    strength: Strength,
)
    ensures
        mixed_statics(installation, elements, strength).layout() == installation.layout(),
    decreases elements.len(),
{
    if elements.len() > 0 {
        lemma_mixed_statics_keeps_layout(installation, elements.drop_last(), strength);
        let before = mixed_statics(installation, elements.drop_last(), strength);
        match elements.last().value.as_mix_value() {
            Some(value) => {
                lemma_mixed_into_keeps_layout(before, elements.last().target, value, strength);
            },
            None => {},
        }
    }
}

/// Mixing pattern values in keeps the layout.
pub proof fn lemma_mixed_pairs_keeps_layout(
    installation: InstallationModel,
    targets: Seq<Target>,
    values: Seq<i32>,
    n: int,
    strength: Strength,
)
    ensures
        mixed_pairs(installation, targets, values, n, strength).layout() == installation.layout(),
    decreases n,
{
    if n > 0 {
        lemma_mixed_pairs_keeps_layout(installation, targets, values, n - 1, strength);
        lemma_mixed_into_keeps_layout(
            mixed_pairs(installation, targets, values, n - 1, strength),
            targets[n - 1],
            values[n - 1],
            strength,
        );
    }
}

impl Effect {
    pub fn new(name: &str, strength: Strength, elements: Vec<EffectElement>, patterns: Vec<Pattern>) -> (effect: Effect)
        ensures
            effect@ == (EffectModel {
                name: name@,
                strength,
                elements: element_models(elements@),
                patterns: pattern_models(patterns@),
            }),
    {
        Effect {
            name: name.to_owned(),
            strength,
            effect_elements: elements,
            effect_patterns: patterns,
        }
    }

    /// Mixes this effect into the installation at its present strength:
    /// first its static contributions, then, pattern by pattern, the values
    /// of the next frame into the elements of the pattern's group. A pattern
    /// whose group `groups` does not know is passed over without being run.
    ///
    /// What the patterns yield is theirs to say; the installation is what
    /// the effect makes of whatever they yielded.
    pub fn apply_to(&mut self, installation: &mut Installation, groups: &GroupMap)
        ensures
            final(self)@ == old(self)@,
            exists|frames: Seq<Seq<i32>>|
                frames_fit(old(self)@.patterns, frames) && final(installation)@ == mixed_effect(
                    old(installation)@,
                    groups.names(),
                    group_targets(groups.values()),
                    old(self)@,
                    frames,
                ),
            final(installation)@.layout() == old(installation)@.layout(),
            old(self)@.patterns.len() == 0 ==> final(installation)@ == mixed_statics(
                old(installation)@,
                old(self)@.elements,
                old(self)@.strength,
            ),
    {
        let strength = self.strength;
        apply_elements(installation, &self.effect_elements, strength);
        let n = self.effect_patterns.len();
        let ghost patterns = self@.patterns;
        let ghost start = installation@;
        let ghost group_names = groups.names();
        let ghost members_of = group_targets(groups.values());
        let ghost mut frames: Seq<Seq<i32>> = Seq::empty();
        let mut i: usize = 0;
        while i < n
            invariant
                i <= n,
                n == self.effect_patterns.len(),
                self@ == old(self)@,
                patterns == old(self)@.patterns,
                strength == old(self)@.strength,
                group_names == groups.names(),
                members_of == group_targets(groups.values()),
                frames.len() == i,
                forall|k: int| 0 <= k < i && !(#[trigger] patterns[k]).loaded ==> frames[k].len() == 0,
                installation@ == mixed_frames(
                    start,
                    group_names,
                    members_of,
                    patterns,
                    frames,
                    i as int,
                    strength,
                ),
            decreases n - i,
        {
            let ghost patterns_before = self.effect_patterns@;
            let ghost frames_before = frames;
            assert(patterns[i as int] == patterns_before[i as int]@);
            let pattern = &mut self.effect_patterns[i];
            match groups.get(pattern.group()) {
                Some(members) => {
                    let values = pattern.update();
                    apply_values(installation, members, &values, strength);
                    proof {
                        frames = frames.push(values@);
                        let at = groups.names().index_of(patterns[i as int].group);
                        assert(members_of[at] == targets(members@));
                    }
                },
                None => {
                    proof {
                        frames = frames.push(Seq::empty());
                    }
                },
            }
            proof {
                lemma_mixed_frames_prefix(
                    start,
                    group_names,
                    members_of,
                    patterns,
                    frames_before,
                    frames,
                    i as int,
                    strength,
                );
            }
            assert(pattern_models(self.effect_patterns@) =~= pattern_models(patterns_before));
            i += 1;
        }
        proof {
            assert(frames_fit(patterns, frames));
            lemma_mixed_statics_keeps_layout(old(installation)@, old(self)@.elements, strength);
            lemma_mixed_frames_keeps_layout(
                start,
                group_names,
                members_of,
                patterns,
                frames,
                n as int,
                strength,
            );
        }
    }

    pub fn name(&self) -> (name: &str)
        ensures
            name@ == self@.name,
    {
        self.name.as_str()
    }

    pub fn strength(&self) -> (strength: Strength)
        ensures
            strength == self@.strength,
    {
        self.strength
    }

    /// The strength, to be changed in place.
    pub fn strength_mut(&mut self) -> (strength: &mut Strength)
        ensures
            *strength == old(self)@.strength,
            final(self)@ == (EffectModel { strength: *final(strength), ..old(self)@ }),
    {
        &mut self.strength
    }

    pub fn set_strength(&mut self, value: Strength)
        ensures
            final(self)@ == (EffectModel { strength: value, ..old(self)@ }),
    {
        self.strength = value;
    }

    /// Applies a toggle: an effect that is on at all goes off, one that is
    /// off goes fully on.
    pub fn toggle(&mut self)
        ensures
            final(self)@ == (EffectModel { strength: toggled(old(self)@.strength), ..old(self)@ }),
    {
        if self.strength > 0 {
            self.strength = 0;
        } else {
            self.strength = FULL;
        }
    }

    /// Whether the effect has no patterns.
    pub fn is_static(&self) -> (is_static: bool)
        ensures
            is_static == (self@.patterns.len() == 0),
    {
        self.effect_patterns.len() == 0
    }
}

/// The models of a list of effects.
pub open spec fn effect_models(effects: Seq<Effect>) -> Seq<EffectModel> {
    Seq::new(effects.len(), |i: int| effects[i]@)
}

/// Replacing an effect replaces its model, and no other.
pub broadcast proof fn lemma_effect_models_update(effects: Seq<Effect>, i: int, effect: Effect)
    requires
        0 <= i < effects.len(),
    ensures
        #[trigger] effect_models(effects.update(i, effect)) == effect_models(effects).update(
            i,
            effect@,
        ),
{
    assert(effect_models(effects.update(i, effect)) =~= effect_models(effects).update(i, effect@));
}

/// The keys of a list of commands.
pub open spec fn keys_of(commands: Seq<Command>) -> Seq<Seq<char>> {
    Seq::new(commands.len(), |i: int| commands[i].key@)
}

/// The models of the lists of a group map.
pub open spec fn group_targets(groups: Seq<Vec<GroupElement>>) -> Seq<Seq<Target>> {
    Seq::new(groups.len(), |i: int| targets(groups[i]@))
}

/// An effect pool as a mathematical value.
pub ghost struct EffectPoolModel {
    pub effects: Seq<EffectModel>,
    pub group_names: Seq<Seq<char>>,
    pub groups: Seq<Seq<Target>>,
    /// Where the installation of the show is described.
    pub installation: Seq<char>,
    /// The keys that are bound, in the order in which they were first bound.
    pub keys: Seq<Seq<char>>,
    /// The name of the effect that each key is bound to.
    pub bound: Seq<Seq<char>>,
    /// The keys of the commands that wait to be run.
    pub queue: Seq<Seq<char>>,
}

/// The place of the first of the first `n` effects that is called `name`.
pub open spec fn first_named(effects: Seq<EffectModel>, name: Seq<char>, n: int) -> Option<int>
    decreases n,
{
    if n <= 0 {
        None
    } else {
        match first_named(effects, name, n - 1) {
            Some(i) => Some(i),
            None => if effects[n - 1].name == name {
                Some(n - 1)
            } else {
                None
            },
        }
    }
}

/// `effects` with the effect at place `i` toggled.
pub open spec fn with_toggled(effects: Seq<EffectModel>, i: int) -> Seq<EffectModel> {
    effects.update(i, EffectModel { strength: toggled(effects[i].strength), ..effects[i] })
}

impl EffectPoolModel {
    /// The name that `key` is bound to.
    pub open spec fn binding(self, key: Seq<char>) -> Option<Seq<char>> {
        if self.keys.contains(key) && self.keys.index_of(key) < self.bound.len() {
            Some(self.bound[self.keys.index_of(key)])
        } else {
            None
        }
    }

    /// The place of the effect that `key` stands for: the first effect with
    /// the name that the key is bound to.
    pub open spec fn effect_of(self, key: Seq<char>) -> Option<int> {
        match self.binding(key) {
            Some(name) => first_named(self.effects, name, self.effects.len() as int),
            None => None,
        }
    }

    /// The effects after the commands with the given keys have been run, in
    /// order: each toggles the effect that its key stands for, and one whose
    /// key stands for no effect does nothing.
    pub open spec fn after_commands(self, keys: Seq<Seq<char>>) -> Seq<EffectModel>
        decreases keys.len(),
    {
        if keys.len() == 0 {
            self.effects
        } else {
            let before = self.after_commands(keys.drop_last());
            match (EffectPoolModel { effects: before, ..self }).effect_of(keys.last()) {
                Some(i) => with_toggled(before, i),
                None => before,
            }
        }
    }

    /// Whether no effect has a pattern.
    pub open spec fn is_static(self) -> bool {
        forall|i: int| 0 <= i < self.effects.len() ==> (#[trigger] self.effects[i]).patterns.len() == 0
    }
}

/// The installation after the static contributions of the first `n` of
/// `effects` have been mixed in, effect by effect, each at its strength.
pub open spec fn mixed_effects(
    installation: InstallationModel,
    effects: Seq<EffectModel>,
    n: int,
) -> InstallationModel
    decreases n,
{
    if n <= 0 {
        installation
    } else {
        mixed_statics(
            mixed_effects(installation, effects, n - 1),
            effects[n - 1].elements,
            effects[n - 1].strength,
        )
    }
}

/// The installation after the first `n` effects of `pool` have been mixed
/// in, in order, the patterns of effect `e` having yielded `frames[e]`.
pub open spec fn mixed_pool(
    installation: InstallationModel,
    pool: EffectPoolModel,
    frames: Seq<Seq<Seq<i32>>>,
    n: int,
) -> InstallationModel
    decreases n,
{
    if n <= 0 {
        installation
    } else {
        mixed_effect(
            mixed_pool(installation, pool, frames, n - 1),
            pool.group_names,
            pool.groups,
            pool.effects[n - 1],
            frames[n - 1],
        )
    }
}

/// Whether `frames` can be what the patterns of `pool` yielded in one frame.
pub open spec fn pool_frames_fit(pool: EffectPoolModel, frames: Seq<Seq<Seq<i32>>>) -> bool {
    &&& frames.len() == pool.effects.len()
    &&& forall|e: int|
        0 <= e < pool.effects.len() ==> frames_fit(
            (#[trigger] pool.effects[e]).patterns,
            frames[e],
        )
}

/// What effects yield beyond the first `n` does not matter to what the first
/// `n` mix in.
pub proof fn lemma_mixed_pool_prefix(
    installation: InstallationModel,
    pool: EffectPoolModel,
    a: Seq<Seq<Seq<i32>>>,
    b: Seq<Seq<Seq<i32>>>,
    n: int,
)
    requires
        n <= a.len(),
        n <= b.len(),
        forall|k: int| 0 <= k < n ==> a[k] == b[k],
    ensures
        mixed_pool(installation, pool, a, n) == mixed_pool(installation, pool, b, n),
    decreases n,
{
    if n > 0 {
        lemma_mixed_pool_prefix(installation, pool, a, b, n - 1);
    }
}

/// A named effect is found inside the list, it has the name, and no effect
/// before it has.
pub proof fn lemma_first_named(effects: Seq<EffectModel>, name: Seq<char>, n: int)
    requires
        0 <= n <= effects.len(),
    ensures
        match first_named(effects, name, n) {
            Some(i) => 0 <= i < n && effects[i].name == name && forall|k: int|
                0 <= k < i ==> (#[trigger] effects[k]).name != name,
            None => forall|k: int| 0 <= k < n ==> (#[trigger] effects[k]).name != name,
        },
    decreases n,
{
    if n > 0 {
        lemma_first_named(effects, name, n - 1);
    }
}

/// The effects of a show, the groups that their patterns drive, the keys of
/// the control surface, and the commands that wait for the next frame.
pub struct EffectPool {
    effects: Vec<Effect>,
    groups: GroupMap,
    installation: String,
    key_map: NameMap<String>,
    command_queue: Vec<Command>,
}

impl View for EffectPool {
    type V = EffectPoolModel;

    closed spec fn view(&self) -> EffectPoolModel {
        EffectPoolModel {
            effects: effect_models(self.effects@),
            group_names: self.groups.names(),
            groups: group_targets(self.groups.values()),
            installation: self.installation@,
            keys: self.key_map.names(),
            bound: views(self.key_map.values()),
            queue: keys_of(self.command_queue@),
        }
    }
}

impl EffectPool {
    /// A pool without bound keys and without waiting commands.
    pub fn new(effects: Vec<Effect>, groups: GroupMap, installation: String) -> (pool: EffectPool)
        ensures
            pool@ == (EffectPoolModel {
                effects: effect_models(effects@),
                group_names: groups.names(),
                groups: group_targets(groups.values()),
                installation: installation@,
                keys: Seq::empty(),
                bound: Seq::empty(),
                queue: Seq::empty(),
            }),
    {
        let pool = EffectPool {
            effects,
            groups,
            installation,
            key_map: NameMap::new(),
            command_queue: Vec::new(),
        };
        assert(pool@.bound =~= Seq::<Seq<char>>::empty());
        assert(pool@.queue =~= Seq::<Seq<char>>::empty());
        pool
    }

    /// Binds `key` to the effect called `effect_name`. A key that is bound
    /// already is bound anew.
    pub fn set_key(&mut self, key: &str, effect_name: &str)
        ensures
            final(self)@.binding(key@) == Some(effect_name@),
            forall|other: Seq<char>|
                other != key@ ==> final(self)@.binding(other) == old(self)@.binding(other),
            final(self)@ == (EffectPoolModel {
                keys: final(self)@.keys,
                bound: final(self)@.bound,
                ..old(self)@
            }),
            old(self)@.keys.len() == old(self)@.bound.len(),
            final(self)@.keys.len() == final(self)@.bound.len(),
            old(self)@.keys.contains(key@) ==> {
                &&& final(self)@.keys == old(self)@.keys
                &&& final(self)@.bound == old(self)@.bound.update(
                    old(self)@.keys.index_of(key@),
                    effect_name@,
                )
            },
            !old(self)@.keys.contains(key@) ==> {
                &&& final(self)@.keys == old(self)@.keys.push(key@)
                &&& final(self)@.bound == old(self)@.bound.push(effect_name@)
            },
    {
        let ghost before = self.key_map;
        self.key_map.insert(key.to_owned(), effect_name.to_owned());
        proof {
            let after = self.key_map;
            if before.names().contains(key@) {
                let i = before.names().index_of(key@);
                assert(after.names()[i] == key@);
                after.lemma_index_of(key@, i);
                assert(self@.bound =~= old(self)@.bound.update(i, effect_name@));
                assert forall|other: Seq<char>| other != key@ implies self@.binding(other) == old(
                    self,
                )@.binding(other) by {
                    if before.names().contains(other) {
                        let k = before.names().index_of(other);
                        assert(before.names()[k] == other);
                    }
                }
            } else {
                let i = before.names().len() as int;
                assert(after.names()[i] == key@);
                after.lemma_index_of(key@, i);
                assert(self@.bound =~= old(self)@.bound.push(effect_name@));
                assert forall|other: Seq<char>| other != key@ implies self@.binding(other) == old(
                    self,
                )@.binding(other) by {
                    if before.names().contains(other) {
                        let k = before.names().index_of(other);
                        assert(before.names()[k] == other);
                        assert(after.names()[k] == other);
                        after.lemma_index_of(other, k);
                    } else if after.names().contains(other) {
                        let k = after.names().index_of(other);
                        assert(after.names()[k] == other);
                        assert(before.names()[k] == other);
                    }
                }
            }
        }
    }

    /// The place of the effect that `key` stands for.
    fn effect_index(&self, key: &str) -> (found: Option<usize>)
        ensures
            match found {
                Some(i) => self@.effect_of(key@) == Some(i as int) && i < self.effects.len(),
                None => self@.effect_of(key@) is None,
            },
    {
        let name = match self.key_map.get(key) {
            Some(name) => name,
            None => {
                return None;
            },
        };
        let ghost models = effect_models(self.effects@);
        proof {
            let k = self.key_map.names().index_of(key@);
            assert(views(self.key_map.values())[k] == name@);
            assert(self@.binding(key@) == Some(name@));
        }
        let mut i: usize = 0;
        while i < self.effects.len()
            invariant
                i <= self.effects.len(),
                models == effect_models(self.effects@),
                self@.binding(key@) == Some(name@),
                first_named(models, name@, i as int) is None,
            decreases self.effects.len() - i,
        {
            if self.effects[i].name == *name {
                assert(models[i as int].name == name@);
                proof {
                    lemma_first_named_found(models, name@, i as int);
                }
                return Some(i);
            }
            i += 1;
        }
        None
    }

    /// The effect that `key` stands for, to be changed in place.
    pub fn get_effect_by_key(&mut self, key: &str) -> (found: Option<&mut Effect>)
        ensures
            match found {
                Some(effect) => {
                    &&& old(self)@.effect_of(key@) is Some
                    &&& effect@ == old(self)@.effects[old(self)@.effect_of(key@).unwrap()]
                    &&& final(self)@ == (EffectPoolModel {
                        effects: old(self)@.effects.update(
                            old(self)@.effect_of(key@).unwrap(),
                            final(effect)@,
                        ),
                        ..old(self)@
                    })
                },
                None => old(self)@.effect_of(key@) is None && final(self)@ == old(self)@,
            },
    {
        broadcast use lemma_effect_models_update;

        match self.effect_index(key) {
            Some(i) => Some(&mut self.effects[i]),
            None => None,
        }
    }

    /// The effect that `key` stands for.
    pub fn effect_by_key(&self, key: &str) -> (found: Option<&Effect>)
        ensures
            match found {
                Some(effect) => {
                    &&& self@.effect_of(key@) is Some
                    &&& effect@ == self@.effects[self@.effect_of(key@).unwrap()]
                },
                None => self@.effect_of(key@) is None,
            },
    {
        match self.effect_index(key) {
            Some(i) => Some(&self.effects[i]),
            None => None,
        }
    }

    /// Where the installation of the show is described.
    pub fn installation(&self) -> (path: &str)
        ensures
            path@ == self@.installation,
    {
        self.installation.as_str()
    }

    /// The effects, to be changed in place.
    pub fn effects_mut(&mut self) -> (effects: &mut Vec<Effect>)
        ensures
            effect_models(effects@) == old(self)@.effects,
            final(self)@ == (EffectPoolModel {
                effects: effect_models(final(effects)@),
                ..old(self)@
            }),
    {
        &mut self.effects
    }

    /// The groups of the show.
    pub fn groups(&self) -> (groups: &GroupMap)
        ensures
            groups.names() == self@.group_names,
            group_targets(groups.values()) == self@.groups,
    {
        &self.groups
    }

    /// Puts commands at the end of the queue.
    pub fn add_commands(&mut self, commands: Vec<Command>)
        ensures
            final(self)@ == (EffectPoolModel {
                queue: old(self)@.queue + keys_of(commands@),
                ..old(self)@
            }),
    {
        let mut commands = commands;
        let ghost added = keys_of(commands@);
        self.command_queue.append(&mut commands);
        assert(self@.queue =~= old(self)@.queue + added);
    }

    /// Runs the waiting commands in order and empties the queue. A command
    /// toggles the effect that its key stands for; one whose key stands for
    /// no effect is dropped.
    pub fn run_commands(&mut self)
        ensures
            final(self)@ == (EffectPoolModel {
                effects: old(self)@.after_commands(old(self)@.queue),
                queue: Seq::empty(),
                ..old(self)@
            }),
    {
        let mut queue: Vec<Command> = Vec::new();
        core::mem::swap(&mut queue, &mut self.command_queue);
        let ghost keys = keys_of(queue@);
        let ghost start = old(self)@;
        assert(self@.queue =~= Seq::<Seq<char>>::empty());
        assert(keys.take(0) =~= Seq::<Seq<char>>::empty());
        let mut i: usize = 0;
        while i < queue.len()
            invariant
                i <= queue.len(),
                keys == keys_of(queue@),
                keys == start.queue,
                self@ == (EffectPoolModel {
                    effects: start.after_commands(keys.take(i as int)),
                    queue: Seq::empty(),
                    ..start
                }),
            decreases queue.len() - i,
        {
            let command = &queue[i];
            proof {
                let next = keys.take(i + 1);
                assert(next.drop_last() =~= keys.take(i as int));
                assert(next.last() == command.key@);
                assert((EffectPoolModel {
                    effects: start.after_commands(keys.take(i as int)),
                    ..start
                }).effect_of(command.key@) == self@.effect_of(command.key@));
            }
            match self.get_effect_by_key(command.key.as_str()) {
                Some(effect) => {
                    match command.action {
                        Action::Toggle => {
                            effect.toggle();
                        },
                    }
                },
                None => {},
            }
            i += 1;
        }
        assert(keys.take(queue.len() as int) =~= keys);
    }

    /// Zeroes the installation and mixes every effect in, in order: later
    /// effects add to what earlier ones left, clamped at each addition.
    ///
    /// What the patterns yield is theirs to say; the installation is what
    /// the pool makes of whatever they yielded.
    pub fn apply_to(&mut self, installation: &mut Installation)
        ensures
            final(self)@ == old(self)@,
            exists|frames: Seq<Seq<Seq<i32>>>|
                pool_frames_fit(old(self)@, frames) && final(installation)@ == mixed_pool(
                    old(installation)@.zeroed(),
                    old(self)@,
                    frames,
                    old(self)@.effects.len() as int,
                ),
            final(installation)@.layout() == old(installation)@.layout(),
            old(installation)@.wf() ==> final(installation)@.wf(),
            old(self)@.is_static() ==> final(installation)@ == mixed_effects(
                old(installation)@.zeroed(),
                old(self)@.effects,
                old(self)@.effects.len() as int,
            ),
    {
        installation.zero();
        proof {
            lemma_zeroed_keeps_layout(old(installation)@);
        }
        let n = self.effects.len();
        let ghost pool = self@;
        let ghost zeroed = installation@;
        let ghost mut frames: Seq<Seq<Seq<i32>>> = Seq::empty();
        let mut i: usize = 0;
        while i < n
            invariant
                i <= n,
                n == self.effects.len(),
                self@ == old(self)@,
                pool == old(self)@,
                zeroed == old(installation)@.zeroed(),
                frames.len() == i,
                forall|e: int|
                    0 <= e < i ==> frames_fit((#[trigger] pool.effects[e]).patterns, frames[e]),
                installation@ == mixed_pool(zeroed, pool, frames, i as int),
                installation@.layout() == old(installation)@.layout(),
                old(self)@.is_static() ==> installation@ == mixed_effects(
                    old(installation)@.zeroed(),
                    old(self)@.effects,
                    i as int,
                ),
            decreases n - i,
        {
            broadcast use lemma_effect_models_update;

            let ghost before = self.effects@;
            let ghost frames_before = frames;
            let ghost start = installation@;
            assert(self@.effects[i as int] == before[i as int]@);
            assert(self@.group_names == self.groups.names());
            assert(self@.groups == group_targets(self.groups.values()));
            let effect = &mut self.effects[i];
            effect.apply_to(installation, &self.groups);
            proof {
                let yielded = choose|yielded: Seq<Seq<i32>>|
                    frames_fit(pool.effects[i as int].patterns, yielded) && installation@
                        == mixed_effect(
                        start,
                        pool.group_names,
                        pool.groups,
                        pool.effects[i as int],
                        yielded,
                    );
                frames = frames.push(yielded);
                lemma_mixed_pool_prefix(zeroed, pool, frames_before, frames, i as int);
            }
            assert(effect_models(self.effects@) =~= effect_models(before));
            i += 1;
        }
        proof {
            assert(pool_frames_fit(pool, frames));
            if old(installation)@.wf() {
                lemma_layout_decides_wf(old(installation)@, installation@);
            }
        }
    }

    /// The names of the scripts that the patterns of the pool run, pattern
    /// by pattern, effect by effect.
    pub fn script_names(&self) -> (names: Vec<String>)
        ensures
            views(names@) == self@.script_names(),
    {
        let mut names: Vec<String> = Vec::new();
        let ghost models = effect_models(self.effects@);
        let mut i: usize = 0;
        assert(views(names@) =~= scripts_of_effects(models, 0));
        while i < self.effects.len()
            invariant
                i <= self.effects.len(),
                models == effect_models(self.effects@),
                views(names@) == scripts_of_effects(models, i as int),
            decreases self.effects.len() - i,
        {
            let effect = &self.effects[i];
            let ghost done = views(names@);
            let ghost patterns = models[i as int].patterns;
            assert(patterns == pattern_models(effect.effect_patterns@));
            let mut j: usize = 0;
            assert(done + scripts_of(patterns, 0) =~= done);
            while j < effect.effect_patterns.len()
                invariant
                    j <= effect.effect_patterns.len(),
                    patterns == pattern_models(effect.effect_patterns@),
                    views(names@) == done + scripts_of(patterns, j as int),
                decreases effect.effect_patterns.len() - j,
            {
                let ghost before = views(names@);
                names.push(effect.effect_patterns[j].script_name().to_owned());
                assert(views(names@) =~= before.push(patterns[j as int].script_name));
                assert(done + scripts_of(patterns, j + 1) =~= (done + scripts_of(
                    patterns,
                    j as int,
                )).push(patterns[j as int].script_name));
                j += 1;
            }
            i += 1;
        }
        names
    }

    /// Loads every pattern of the pool anew, each from the text that
    /// `sources` holds under the name of its script. A pattern whose script
    /// `sources` lacks is left as it is. How a loading ends is the
    /// interpreter's to say; each pattern is broken or loaded accordingly.
    pub fn reload_patterns(&mut self, sources: &NameMap<String>)
        ensures
            final(self)@.without_scripts() == old(self)@.without_scripts(),
            forall|e: int|
                0 <= e < old(self)@.effects.len() ==> reloaded_from(
                    #[trigger] old(self)@.effects[e],
                    final(self)@.effects[e],
                    sources,
                ),
    {
        let n = self.effects.len();
        let mut i: usize = 0;
        while i < n
            invariant
                i <= n,
                n == self.effects.len(),
                n == old(self)@.effects.len(),
                self@.without_scripts() == old(self)@.without_scripts(),
                forall|e: int|
                    0 <= e < i ==> reloaded_from(
                        #[trigger] old(self)@.effects[e],
                        self@.effects[e],
                        sources,
                    ),
                forall|e: int| i <= e < n ==> #[trigger] self@.effects[e] == old(self)@.effects[e],
            decreases n - i,
        {
            assert(self@.effects[i as int] == self.effects@[i as int]@);
            let ghost before = self@;
            let ghost effects_before = self.effects@;
            let effect = &mut self.effects[i];
            effect.reload_patterns(sources);
            proof {
                assert(self.effects@ == effects_before.update(i as int, self.effects@[i as int]));
                assert forall|k: int| 0 <= k < n implies unloaded(
                    #[trigger] effect_models(self.effects@)[k],
                ) == unloaded(effect_models(effects_before)[k]) by {}
                assert(self@.without_scripts().effects =~= before.without_scripts().effects);
                assert forall|e: int| 0 <= e < n && e != i implies #[trigger] self@.effects[e]
                    == before.effects[e] by {
                    assert(self.effects@[e] == effects_before[e]);
                }
            }
            i += 1;
        }
        assert forall|e: int| 0 <= e < n implies reloaded_from(
            #[trigger] old(self)@.effects[e],
            self@.effects[e],
            sources,
        ) by {}
    }
}

/// Whether `after` is the pattern `before` once `sources` has been used to
/// load scripts anew. A pattern whose script `sources` holds has been
/// loaded anew: it is broken or loaded as that loading ended, and otherwise
/// as it was. A pattern whose script `sources` lacks is as it was.
pub open spec fn reloaded_pattern(
    before: PatternModel,
    after: PatternModel,
    sources: &NameMap<String>,
) -> bool {
    if sources.contains(before.script_name) {
        after == before.loaded_with(after.fault) && after.settled()
    } else {
        after == before
    }
}

/// Whether `after` is the effect `before` once `sources` has been used to
/// load the scripts of its patterns anew: every pattern is what
/// `reloaded_pattern` says, and nothing else of the effect has changed.
pub open spec fn reloaded_from(
    before: EffectModel,
    after: EffectModel,
    sources: &NameMap<String>,
) -> bool {
    &&& after == (EffectModel { patterns: after.patterns, ..before })
    &&& after.patterns.len() == before.patterns.len()
    &&& forall|k: int|
        0 <= k < before.patterns.len() ==> reloaded_pattern(
            #[trigger] before.patterns[k],
            after.patterns[k],
            sources,
        )
}

/// The names of the scripts of the first `n` of `patterns`.
pub open spec fn scripts_of(patterns: Seq<PatternModel>, n: int) -> Seq<Seq<char>>
    decreases n,
{
    if n <= 0 {
        Seq::empty()
    } else {
        scripts_of(patterns, n - 1).push(patterns[n - 1].script_name)
    }
}

/// The names of the scripts of the patterns of the first `n` of `effects`,
/// effect by effect.
pub open spec fn scripts_of_effects(effects: Seq<EffectModel>, n: int) -> Seq<Seq<char>>
    decreases n,
{
    if n <= 0 {
        Seq::empty()
    } else {
        scripts_of_effects(effects, n - 1) + scripts_of(
            effects[n - 1].patterns,
            effects[n - 1].patterns.len() as int,
        )
    }
}

/// An effect without the knowledge of which of its patterns are loaded.
pub open spec fn unloaded(effect: EffectModel) -> EffectModel {
    EffectModel {
        patterns: Seq::new(
            effect.patterns.len(),
            |k: int| PatternModel { loaded: false, fault: None, ..effect.patterns[k] },
        ),
        ..effect
    }
}

impl EffectPoolModel {
    /// The names of the scripts that the patterns of the pool run.
    pub open spec fn script_names(self) -> Seq<Seq<char>> {
        scripts_of_effects(self.effects, self.effects.len() as int)
    }

    /// The pool without the knowledge of which patterns are loaded.
    pub open spec fn without_scripts(self) -> EffectPoolModel {
        EffectPoolModel { effects: unloaded_all(self.effects), ..self }
    }
}

/// Effects without the knowledge of which of their patterns are loaded.
pub open spec fn unloaded_all(effects: Seq<EffectModel>) -> Seq<EffectModel> {
    Seq::new(effects.len(), |i: int| unloaded(effects[i]))
}

/// Commands keep the number of effects and the patterns of each.
pub proof fn lemma_commands_keep_patterns(pool: EffectPoolModel, keys: Seq<Seq<char>>)
    ensures
        pool.after_commands(keys).len() == pool.effects.len(),
        forall|i: int|
            0 <= i < pool.effects.len() ==> (#[trigger] pool.after_commands(keys)[i]).patterns
                == pool.effects[i].patterns,
    decreases keys.len(),
{
    if keys.len() > 0 {
        lemma_commands_keep_patterns(pool, keys.drop_last());
        let before = pool.after_commands(keys.drop_last());
        match (EffectPoolModel { effects: before, ..pool }).effect_of(keys.last()) {
            Some(i) => {
                let name = (EffectPoolModel { effects: before, ..pool }).binding(
                    keys.last(),
                ).unwrap();
                lemma_first_named(before, name, before.len() as int);
            },
            None => {},
        }
    }
}

/// Effects without patterns are known in full once they are known but for
/// which patterns are loaded.
pub proof fn lemma_static_effects_are_known(a: Seq<EffectModel>, b: Seq<EffectModel>)
    requires
        unloaded_all(a) == unloaded_all(b),
        forall|i: int| 0 <= i < a.len() ==> (#[trigger] a[i]).patterns.len() == 0,
    ensures
        a == b,
{
    assert(unloaded_all(a).len() == a.len() && unloaded_all(b).len() == b.len());
    assert forall|i: int| 0 <= i < a.len() implies a[i] == b[i] by {
        assert(unloaded_all(a)[i] == unloaded(a[i]));
        assert(unloaded_all(b)[i] == unloaded(b[i]));
        assert(a[i].patterns.len() == 0);
        assert(unloaded(a[i]).patterns.len() == 0);
        assert(unloaded(b[i]).patterns.len() == b[i].patterns.len());
        assert(a[i].patterns =~= b[i].patterns);
    }
    assert(a =~= b);
}

/// Which effect is the first of a name depends on the names alone.
pub proof fn lemma_first_named_by_names(
    a: Seq<EffectModel>,
    b: Seq<EffectModel>,
    name: Seq<char>,
    n: int,
)
    requires
        n <= a.len(),
        n <= b.len(),
        forall|i: int| 0 <= i < n ==> a[i].name == b[i].name,
    ensures
        first_named(a, name, n) == first_named(b, name, n),
    decreases n,
{
    if n > 0 {
        lemma_first_named_by_names(a, b, name, n - 1);
    }
}

/// Commands change strengths and nothing else, and what they do does not
/// depend on which patterns are loaded.
pub proof fn lemma_commands_ignore_scripts(
    a: EffectPoolModel,
    b: EffectPoolModel,
    keys: Seq<Seq<char>>,
)
    requires
        a.without_scripts() == b.without_scripts(),
    ensures
        unloaded_all(a.after_commands(keys)) == unloaded_all(b.after_commands(keys)),
    decreases keys.len(),
{
    assert(unloaded_all(a.effects) == a.without_scripts().effects);
    assert(unloaded_all(b.effects) == b.without_scripts().effects);
    if keys.len() > 0 {
        lemma_commands_ignore_scripts(a, b, keys.drop_last());
        let xa = a.after_commands(keys.drop_last());
        let xb = b.after_commands(keys.drop_last());
        assert(unloaded_all(xa).len() == xa.len() && unloaded_all(xb).len() == xb.len());
        assert forall|i: int| 0 <= i < xa.len() implies unloaded(xa[i]) == unloaded(xb[i]) by {
            assert(unloaded_all(xa)[i] == unloaded(xa[i]));
            assert(unloaded_all(xb)[i] == unloaded(xb[i]));
        }
        let pa = EffectPoolModel { effects: xa, ..a };
        let pb = EffectPoolModel { effects: xb, ..b };
        assert(a.keys == a.without_scripts().keys && b.keys == b.without_scripts().keys);
        assert(a.bound == a.without_scripts().bound && b.bound == b.without_scripts().bound);
        assert(pa.binding(keys.last()) == pb.binding(keys.last()));
        match pa.binding(keys.last()) {
            Some(name) => {
                assert forall|i: int| 0 <= i < xa.len() implies xa[i].name == xb[i].name by {
                    assert(unloaded(xa[i]).name == unloaded(xb[i]).name);
                }
                lemma_first_named_by_names(xa, xb, name, xa.len() as int);
                lemma_first_named(xa, name, xa.len() as int);
                match first_named(xa, name, xa.len() as int) {
                    Some(i) => {
                        assert(unloaded(xa[i]) == unloaded(xb[i]));
                        assert(unloaded_all(with_toggled(xa, i)) =~= unloaded_all(
                            with_toggled(xb, i),
                        )) by {
                            assert forall|j: int| 0 <= j < xa.len() implies unloaded(
                                with_toggled(xa, i)[j],
                            ) == unloaded(with_toggled(xb, i)[j]) by {
                                assert(unloaded(xa[j]) == unloaded(xb[j]));
                            }
                        }
                    },
                    None => {},
                }
            },
            None => {},
        }
    }
}

/// An effect with the name, before which none has it, is the first named.
pub proof fn lemma_first_named_found(effects: Seq<EffectModel>, name: Seq<char>, i: int)
    requires
        0 <= i < effects.len(),
        effects[i].name == name,
        first_named(effects, name, i) is None,
    ensures
        first_named(effects, name, effects.len() as int) == Some(i),
{
    lemma_first_named_stays(effects, name, i + 1, effects.len() as int);
}

/// What is found among the first `n` effects is found among more of them.
pub proof fn lemma_first_named_stays(effects: Seq<EffectModel>, name: Seq<char>, n: int, m: int)
    requires
        0 <= n <= m <= effects.len(),
        first_named(effects, name, n) is Some,
    ensures
        first_named(effects, name, m) == first_named(effects, name, n),
    decreases m - n,
{
    if n < m {
        lemma_first_named_stays(effects, name, n, m - 1);
    }
}

impl Effect {
    /// Loads every pattern of the effect anew, each from the text that
    /// `sources` holds under the name of its script. A pattern whose script
    /// `sources` lacks is left as it is. How a loading ends is the
    /// interpreter's to say; each pattern is broken or loaded accordingly.
    pub fn reload_patterns(&mut self, sources: &NameMap<String>)
        ensures
            unloaded(final(self)@) == unloaded(old(self)@),
            reloaded_from(old(self)@, final(self)@, sources),
    {
        let n = self.effect_patterns.len();
        let mut j: usize = 0;
        while j < n
            invariant
                j <= n,
                n == self.effect_patterns.len(),
                n == old(self)@.patterns.len(),
                unloaded(self@) == unloaded(old(self)@),
                self@ == (EffectModel { patterns: self@.patterns, ..old(self)@ }),
                self@.patterns.len() == n,
                forall|k: int|
                    0 <= k < j ==> reloaded_pattern(
                        #[trigger] old(self)@.patterns[k],
                        self@.patterns[k],
                        sources,
                    ),
                forall|k: int| j <= k < n ==> #[trigger] self@.patterns[k] == old(self)@.patterns[k],
            decreases n - j,
        {
            let ghost before = self@;
            let ghost patterns_before = self.effect_patterns@;
            assert(before.patterns[j as int] == patterns_before[j as int]@);
            let pattern = &mut self.effect_patterns[j];
            match sources.get(pattern.script_name()) {
                Some(source) => {
                    pattern.reload(source.as_str());
                },
                None => {},
            }
            proof {
                assert(self.effect_patterns@ == patterns_before.update(
                    j as int,
                    self.effect_patterns@[j as int],
                ));
                assert(unloaded(self@).patterns =~= unloaded(before).patterns);
                assert forall|k: int| 0 <= k < n && k != j implies #[trigger] self@.patterns[k]
                    == before.patterns[k] by {
                    assert(self.effect_patterns@[k] == patterns_before[k]);
                }
                assert(reloaded_pattern(
                    before.patterns[j as int],
                    self@.patterns[j as int],
                    sources,
                ));
            }
            j += 1;
        }
    }
}

} // verus!
