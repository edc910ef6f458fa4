//! The installation: the named fixtures and the universe they fill.
use crate::fixture::{
    lemma_models_update, models, Element, ElementKind, ElementModel, Fixture, FixtureModel,
};
use crate::light::{Color, Rgb};
use crate::names::NameMap;
use vstd::prelude::*;

verus! {

/// The models of a sequence of fixtures.
pub open spec fn fixture_models(fixtures: Seq<Fixture>) -> Seq<FixtureModel> {
    Seq::new(fixtures.len(), |i: int| fixtures[i]@)
}

/// `chain` with `frame` copied to the places from `at` on. The chain grows,
/// with zeros, as far as the frame reaches; it never shrinks.
pub open spec fn place(chain: Seq<u8>, at: int, frame: Seq<u8>) -> Seq<u8> {
    let len = if chain.len() < at + frame.len() {
        (at + frame.len()) as nat
    } else {
        chain.len()
    };
    Seq::new(
        len,
        |p: int|
            if at <= p < at + frame.len() {
                frame[p - at]
            } else if p < chain.len() {
                chain[p]
            } else {
                0u8
            },
    )
}

/// The universe that `fixtures` fill: each frame is placed at the fixture's
/// channel, in the order of the fixtures, so that of two fixtures that claim
/// one byte the later one wins.
pub open spec fn universe(fixtures: Seq<FixtureModel>) -> Seq<u8>
    decreases fixtures.len(),
{
    if fixtures.len() == 0 {
        Seq::empty()
    } else {
        place(universe(fixtures.drop_last()), fixtures.last().channel - 1, fixtures.last().frame)
    }
}

/// The largest span of the first `n` fixtures, 0 where there is none.
pub open spec fn max_span(fixtures: Seq<FixtureModel>, n: int) -> int
    decreases n,
{
    if n <= 0 {
        0
    } else {
        let rest = max_span(fixtures, n - 1);
        if fixtures[n - 1].span() > rest {
            fixtures[n - 1].span()
        } else {
            rest
        }
    }
}

/// The last of the first `n` fixtures whose frame holds the universe byte at `p`.
pub open spec fn last_covering(fixtures: Seq<FixtureModel>, p: int, n: int) -> Option<int>
    decreases n,
{
    if n <= 0 {
        None
    } else if fixtures[n - 1].covers(p) {
        Some(n - 1)
    } else {
        last_covering(fixtures, p, n - 1)
    }
}

/// An installation as a mathematical value: the fixtures and their names, in
/// the order in which they are walked.
pub ghost struct InstallationModel {
    pub names: Seq<Seq<char>>,
    pub fixtures: Seq<FixtureModel>,
}

impl InstallationModel {
    /// Every fixture is well formed.
    pub open spec fn wf(self) -> bool {
        &&& self.names.len() == self.fixtures.len()
        &&& forall|i: int| 0 <= i < self.fixtures.len() ==> (#[trigger] self.fixtures[i]).wf()
    }

    /// The places of the fixture called `fixture` and of its element called
    /// `element`.
    pub open spec fn locate(self, fixture: Seq<char>, element: Seq<char>) -> Option<(int, int)> {
        if self.names.contains(fixture) && self.names.index_of(fixture) < self.fixtures.len() {
            let i = self.names.index_of(fixture);
            match self.fixtures[i].index_of(element) {
                Some(j) => Some((i, j)),
                None => None,
            }
        } else {
            None
        }
    }

    /// The element at place `j` of the fixture at place `i`.
    pub open spec fn element(self, at: (int, int)) -> ElementModel {
        self.fixtures[at.0].elements[at.1]
    }

    /// This installation with one element replaced.
    pub open spec fn with_element(self, at: (int, int), element: ElementModel) -> InstallationModel {
        InstallationModel {
            fixtures: self.fixtures.update(at.0, self.fixtures[at.0].with_element(at.1, element)),
            ..self
        }
    }

    /// This installation with one element given another kind.
    pub open spec fn with_kind(self, at: (int, int), kind: ElementKind) -> InstallationModel {
        self.with_element(at, ElementModel { kind, ..self.element(at) })
    }

    /// This installation with every element in its neutral state.
    pub open spec fn zeroed(self) -> InstallationModel {
        InstallationModel {
            fixtures: Seq::new(self.fixtures.len(), |i: int| self.fixtures[i].zeroed()),
            ..self
        }
    }

    /// This installation after every fixture has written its frame.
    pub open spec fn refreshed(self) -> InstallationModel {
        InstallationModel {
            fixtures: Seq::new(self.fixtures.len(), |i: int| self.fixtures[i].refreshed()),
            ..self
        }
    }

    /// This installation without the state of its elements: every kind is
    /// replaced by `Unknown`. Two installations with one layout differ in
    /// nothing but the kinds of their elements.
    pub open spec fn layout(self) -> InstallationModel {
        InstallationModel {
            fixtures: Seq::new(
                self.fixtures.len(),
                |i: int|
                    FixtureModel {
                        elements: Seq::new(
                            self.fixtures[i].elements.len(),
                            |j: int|
                                ElementModel {
                                    kind: ElementKind::Unknown,
                                    ..self.fixtures[i].elements[j]
                                },
                        ),
                        ..self.fixtures[i]
                    },
            ),
            ..self
        }
    }

    /// Whether `at` is the place of an element.
    pub open spec fn has(self, at: (int, int)) -> bool {
        0 <= at.0 < self.fixtures.len() && 0 <= at.1 < self.fixtures[at.0].elements.len()
    }
}

/// Giving an element another kind keeps the layout.
pub proof fn lemma_with_kind_keeps_layout(
    installation: InstallationModel,
    at: (int, int),
    kind: ElementKind,
)
    requires
        installation.has(at),
    ensures
        installation.with_kind(at, kind).layout() == installation.layout(),
{
    let changed = installation.with_kind(at, kind);
    assert forall|i: int| 0 <= i < installation.fixtures.len() implies changed.layout().fixtures[i]
        == installation.layout().fixtures[i] by {
        assert(changed.layout().fixtures[i].elements =~= installation.layout().fixtures[i].elements);
    }
    assert(changed.layout().fixtures =~= installation.layout().fixtures);
}

/// Zeroing keeps the layout.
pub proof fn lemma_zeroed_keeps_layout(installation: InstallationModel)
    ensures
        installation.zeroed().layout() == installation.layout(),
{
    let changed = installation.zeroed();
    assert forall|i: int| 0 <= i < installation.fixtures.len() implies changed.layout().fixtures[i]
        == installation.layout().fixtures[i] by {
        assert(changed.layout().fixtures[i].elements =~= installation.layout().fixtures[i].elements);
    }
    assert(changed.layout().fixtures =~= installation.layout().fixtures);
}

/// Whether an installation is well formed depends on its layout alone.
pub proof fn lemma_layout_decides_wf(a: InstallationModel, b: InstallationModel)
    requires
        a.layout() == b.layout(),
        a.wf(),
    ensures
        b.wf(),
{
    assert(a.layout().fixtures.len() == a.fixtures.len());
    assert(b.layout().fixtures.len() == b.fixtures.len());
    assert(a.names == a.layout().names);
    assert(b.names == b.layout().names);
    assert forall|i: int| 0 <= i < b.fixtures.len() implies (#[trigger] b.fixtures[i]).wf() by {
        let fa = a.fixtures[i];
        let fb = b.fixtures[i];
        assert(fa.wf());
        assert(a.layout().fixtures[i] == b.layout().fixtures[i]);
        assert(a.layout().fixtures[i].elements.len() == fa.elements.len());
        assert(b.layout().fixtures[i].elements.len() == fb.elements.len());
        assert forall|j: int| 0 <= j < fb.elements.len() implies (#[trigger] fb.elements[j]).fits(
            fb.frame.len() as int,
        ) by {
            let la = a.layout().fixtures[i];
            let lb = b.layout().fixtures[i];
            assert(la.frame == fa.frame && lb.frame == fb.frame);
            assert(fa.elements[j].fits(fa.frame.len() as int));
            assert(la.elements[j] == lb.elements[j]);
            assert(la.elements[j].indices == fa.elements[j].indices);
            assert(lb.elements[j].indices == fb.elements[j].indices);
            assert(la.elements[j].roles == fa.elements[j].roles);
            assert(lb.elements[j].roles == fb.elements[j].roles);
        }
    }
}

/// The universe is as long as the widest fixture asks for.
pub proof fn lemma_universe_len(fixtures: Seq<FixtureModel>)
    requires
        forall|i: int| 0 <= i < fixtures.len() ==> (#[trigger] fixtures[i]).channel >= 1,
    ensures
        universe(fixtures).len() == max_span(fixtures, fixtures.len() as int),
    decreases fixtures.len(),
{
    if fixtures.len() > 0 {
        let rest = fixtures.drop_last();
        assert forall|i: int| 0 <= i < rest.len() implies (#[trigger] rest[i]).channel >= 1 by {
            assert(rest[i] == fixtures[i]);
        }
        lemma_universe_len(rest);
        lemma_max_span_prefix(fixtures, rest, rest.len() as int);
        assert(fixtures.last() == fixtures[fixtures.len() - 1]);
    }
}

/// The largest span of a prefix does not depend on what follows the prefix.
pub proof fn lemma_max_span_prefix(a: Seq<FixtureModel>, b: Seq<FixtureModel>, n: int)
    requires
        n <= a.len(),
        n <= b.len(),
        forall|i: int| 0 <= i < n ==> a[i] == b[i],
    ensures
        max_span(a, n) == max_span(b, n),
    decreases n,
{
    if n > 0 {
        lemma_max_span_prefix(a, b, n - 1);
    }
}

/// `max_span` is the largest span: no fixture asks for more, and one asks
/// for exactly that much unless there is no fixture with a byte at all.
pub proof fn lemma_max_span_is_max(fixtures: Seq<FixtureModel>, n: int)
    requires
        0 <= n <= fixtures.len(),
        forall|i: int| 0 <= i < fixtures.len() ==> (#[trigger] fixtures[i]).channel >= 1,
    ensures
        forall|i: int| 0 <= i < n ==> (#[trigger] fixtures[i]).span() <= max_span(fixtures, n),
        max_span(fixtures, n) == 0 || exists|i: int|
            0 <= i < n && (#[trigger] fixtures[i]).span() == max_span(fixtures, n),
    decreases n,
{
    if n > 0 {
        lemma_max_span_is_max(fixtures, n - 1);
        let rest = max_span(fixtures, n - 1);
        if fixtures[n - 1].span() > rest {
            assert(fixtures[n - 1].span() == max_span(fixtures, n));
        } else if rest != 0 {
            let i = choose|i: int|
                0 <= i < n - 1 && (#[trigger] fixtures[i]).span() == max_span(fixtures, n - 1);
            assert(fixtures[i].span() == max_span(fixtures, n));
        }
    }
}

/// Each byte of the universe is the byte of the last fixture whose frame
/// holds it, and 0 where no frame does.
pub proof fn lemma_universe_byte(fixtures: Seq<FixtureModel>, p: int)
    requires
        forall|i: int| 0 <= i < fixtures.len() ==> (#[trigger] fixtures[i]).channel >= 1,
        0 <= p < universe(fixtures).len(),
    ensures
        universe(fixtures)[p] == match last_covering(fixtures, p, fixtures.len() as int) {
            Some(k) => fixtures[k].frame[p - (fixtures[k].channel - 1)],
            None => 0u8,
        },
    decreases fixtures.len(),
{
    if fixtures.len() > 0 {
        let rest = fixtures.drop_last();
        let last = fixtures.last();
        assert(last == fixtures[fixtures.len() - 1]);
        assert forall|i: int| 0 <= i < rest.len() implies (#[trigger] rest[i]).channel >= 1 by {
            assert(rest[i] == fixtures[i]);
        }
        lemma_last_covering_prefix(fixtures, rest, p, rest.len() as int);
        if !last.covers(p) {
            if p < universe(rest).len() {
                lemma_universe_byte(rest, p);
                let found = last_covering(rest, p, rest.len() as int);
                if found is Some {
                    lemma_last_covering_range(rest, p, rest.len() as int);
                    assert(rest[found.unwrap()] == fixtures[found.unwrap()]);
                }
            } else {
                lemma_universe_len(rest);
                lemma_beyond_is_uncovered(rest, p, rest.len() as int);
            }
        }
    }
}

/// A byte of the universe that no fixture covers is 0.
pub proof fn lemma_universe_gaps_are_dark(fixtures: Seq<FixtureModel>, p: int)
    requires
        forall|i: int| 0 <= i < fixtures.len() ==> (#[trigger] fixtures[i]).channel >= 1,
        0 <= p < universe(fixtures).len(),
        forall|i: int| 0 <= i < fixtures.len() ==> !(#[trigger] fixtures[i]).covers(p),
    ensures
        universe(fixtures)[p] == 0,
{
    lemma_universe_byte(fixtures, p);
    lemma_last_covering_range(fixtures, p, fixtures.len() as int);
}

/// After zeroing, every colour is black and every intensity and UV level is 0.
pub proof fn lemma_zeroed_is_neutral(installation: InstallationModel, at: (int, int))
    requires
        installation.has(at),
    ensures
        match installation.zeroed().element(at).kind {
            ElementKind::Intensity(level) => level == 0,
            ElementKind::Uv(level) => level == 0,
            ElementKind::Rgbi(color) => color@ == Rgb::black(),
            ElementKind::Rgbiu { rgb, uv } => rgb@ == Rgb::black() && uv == 0,
            _ => true,
        },
        installation.zeroed().element(at).kind == installation.element(at).kind.zeroed(),
{
    Color::lemma_of_view(Rgb::black());
}

/// What covers a byte among a prefix does not depend on what follows the prefix.
pub proof fn lemma_last_covering_prefix(
    a: Seq<FixtureModel>,
    b: Seq<FixtureModel>,
    p: int,
    n: int,
)
    requires
        n <= a.len(),
        n <= b.len(),
        forall|i: int| 0 <= i < n ==> a[i] == b[i],
    ensures
        last_covering(a, p, n) == last_covering(b, p, n),
    decreases n,
{
    if n > 0 {
        lemma_last_covering_prefix(a, b, p, n - 1);
    }
}

/// A fixture that `last_covering` names is one of the first `n` and covers
/// the byte; where it names none, none of them covers it.
pub proof fn lemma_last_covering_range(fixtures: Seq<FixtureModel>, p: int, n: int)
    requires
        0 <= n <= fixtures.len(),
    ensures
        match last_covering(fixtures, p, n) {
            Some(k) => 0 <= k < n && fixtures[k].covers(p) && forall|i: int|
                k < i < n ==> !(#[trigger] fixtures[i]).covers(p),
            None => forall|i: int| 0 <= i < n ==> !(#[trigger] fixtures[i]).covers(p),
        },
    decreases n,
{
    if n > 0 {
        lemma_last_covering_range(fixtures, p, n - 1);
    }
}

/// No fixture covers a byte at or behind the largest span.
pub proof fn lemma_beyond_is_uncovered(fixtures: Seq<FixtureModel>, p: int, n: int)
    requires
        0 <= n <= fixtures.len(),
        p >= max_span(fixtures, n),
    ensures
        last_covering(fixtures, p, n) is None,
    decreases n,
{
    if n > 0 {
        lemma_beyond_is_uncovered(fixtures, p, n - 1);
    }
}

/// Replacing a fixture replaces its model, and no other.
pub broadcast proof fn lemma_fixture_models_update(fixtures: Seq<Fixture>, i: int, fixture: Fixture)
    requires
        0 <= i < fixtures.len(),
    ensures
        #[trigger] fixture_models(fixtures.update(i, fixture)) == fixture_models(fixtures).update(
            i,
            fixture@,
        ),
{
    assert(fixture_models(fixtures.update(i, fixture)) =~= fixture_models(fixtures).update(
        i,
        fixture@,
    ));
}

/// Replacing a fixture model by itself changes nothing.
pub broadcast proof fn lemma_update_same(fixtures: Seq<FixtureModel>, i: int, fixture: FixtureModel)
    requires
        0 <= i < fixtures.len(),
        fixtures[i] == fixture,
    ensures
        #[trigger] fixtures.update(i, fixture) == fixtures,
{
    assert(fixtures.update(i, fixture) =~= fixtures);
}

/// A named collection of fixtures.
pub struct Installation {
    fixtures: NameMap<Fixture>,
}

impl View for Installation {
    type V = InstallationModel;

    closed spec fn view(&self) -> InstallationModel {
        InstallationModel {
            names: self.fixtures.names(),
            fixtures: fixture_models(self.fixtures.values()),
        }
    }
}

impl Installation {
    pub fn new(fixtures: NameMap<Fixture>) -> (installation: Installation)
        ensures
            installation@ == (InstallationModel {
                names: fixtures.names(),
                fixtures: fixture_models(fixtures.values()),
            }),
    {
        Installation { fixtures }
    }

    pub fn fixtures(&self) -> (fixtures: &NameMap<Fixture>)
        ensures
            fixtures.names() == self@.names,
            fixture_models(fixtures.values()) == self@.fixtures,
    {
        &self.fixtures
    }

    /// Whether every fixture is well formed.
    pub fn is_wf(&self) -> (ok: bool)
        ensures
            ok == self@.wf(),
    {
        let n = self.fixtures.len();
        let mut i: usize = 0;
        while i < n
            invariant
                i <= n,
                n == self@.fixtures.len(),
                n == self@.names.len(),
                n == self.fixtures.values().len(),
                forall|k: int| 0 <= k < i ==> (#[trigger] self@.fixtures[k]).wf(),
            decreases n - i,
        {
            if !self.fixtures.value(i).is_wf() {
                assert(!self@.fixtures[i as int].wf());
                return false;
            }
            i += 1;
        }
        true
    }

    /// The element `element` of the fixture `fixture`, to be changed in
    /// place. What is done to it shows in the installation, and nothing else
    /// changes.
    pub fn find_element(&mut self, fixture: &str, element: &str) -> (found: Option<&mut Element>)
        ensures
            match found {
                Some(e) => {
                    &&& old(self)@.locate(fixture@, element@) is Some
                    &&& e@ == old(self)@.element(old(self)@.locate(fixture@, element@).unwrap())
                    &&& final(self)@ == old(self)@.with_element(
                        old(self)@.locate(fixture@, element@).unwrap(),
                        final(e)@,
                    )
                },
                None => old(self)@.locate(fixture@, element@) is None && final(self)@ == old(
                    self,
                )@,
            },
    {
        broadcast use {lemma_models_update, lemma_fixture_models_update, lemma_update_same};

        match self.fixtures.get_mut(fixture) {
            Some(target) => target.elements_mut().get_mut(element),
            None => None,
        }
    }

    /// Puts every element of every fixture into the neutral state of its
    /// variant: black for colours, 0 for intensity and UV.
    pub fn zero(&mut self)
        ensures
            final(self)@ == old(self)@.zeroed(),
    {
        let n = self.fixtures.len();
        let ghost before = self@;
        let mut i: usize = 0;
        while i < n
            invariant
                i <= n,
                n == before.fixtures.len(),
                n == self.fixtures.values().len(),
                self@.names == before.names,
                self@.fixtures.len() == n,
                forall|k: int| 0 <= k < i ==> #[trigger] self@.fixtures[k] == before.fixtures[k].zeroed(),
                forall|k: int| i <= k < n ==> #[trigger] self@.fixtures[k] == before.fixtures[k],
            decreases n - i,
        {
            broadcast use lemma_fixture_models_update;

            assert(self@.fixtures[i as int] == before.fixtures[i as int]);
            let fixture = self.fixtures.value_mut(i);
            fixture.zero();
            i += 1;
        }
        assert(self@.fixtures =~= before.zeroed().fixtures);
    }

    /// Lets every fixture write its frame, and assembles the universe from
    /// the frames. The universe is built anew on each call.
    pub fn build_dmx_chain(&mut self) -> (chain: Vec<u8>)
        requires
            old(self)@.wf(),
        ensures
            final(self)@ == old(self)@.refreshed(),
            final(self)@.wf(),
            chain@ == universe(final(self)@.fixtures),
            chain@.len() == max_span(final(self)@.fixtures, final(self)@.fixtures.len() as int),
            forall|p: int|
                0 <= p < chain@.len() ==> #[trigger] chain@[p] == match last_covering(
                    final(self)@.fixtures,
                    p,
                    final(self)@.fixtures.len() as int,
                ) {
                    Some(k) => final(self)@.fixtures[k].frame[p - (final(self)@.fixtures[k].channel
                        - 1)],
                    None => 0u8,
                },
    {
        let mut chain: Vec<u8> = Vec::new();
        let n = self.fixtures.len();
        let ghost before = self@;
        let mut i: usize = 0;
        assert(self@.fixtures.take(0) =~= Seq::<FixtureModel>::empty());
        while i < n
            invariant
                i <= n,
                before.wf(),
                n == before.fixtures.len(),
                n == self.fixtures.values().len(),
                self@.names == before.names,
                self@.fixtures.len() == n,
                forall|k: int|
                    0 <= k < i ==> #[trigger] self@.fixtures[k] == before.fixtures[k].refreshed(),
                forall|k: int| i <= k < n ==> #[trigger] self@.fixtures[k] == before.fixtures[k],
                chain@ == universe(self@.fixtures.take(i as int)),
            decreases n - i,
        {
            broadcast use lemma_fixture_models_update;

            let ghost walked = self@.fixtures.take(i as int);
            assert(self@.fixtures[i as int] == before.fixtures[i as int]);
            let fixture = self.fixtures.value_mut(i);
            assert(fixture@ == before.fixtures[i as int]);
            fixture.update_dmx();
            let start = fixture.channel() - 1;
            let frame = fixture.dmx().clone();
            let ghost model = fixture@;
            assert(frame@ =~= model.frame);
            place_frame(&mut chain, start, &frame);
            proof {
                let next = self@.fixtures.take(i + 1);
                assert(next.drop_last() =~= walked);
                assert(next.last() == model);
            }
            i += 1;
        }
        assert(self@.fixtures.take(n as int) =~= self@.fixtures);
        assert(self@.fixtures =~= before.refreshed().fixtures);
        proof {
            assert forall|k: int| 0 <= k < n implies (#[trigger] self@.fixtures[k]).wf() by {
                crate::fixture::lemma_frame_after_len(
                    before.fixtures[k].elements,
                    before.fixtures[k].frame,
                );
            }
            lemma_universe_len(self@.fixtures);
            assert forall|p: int| 0 <= p < chain@.len() implies #[trigger] chain@[p]
                == match last_covering(self@.fixtures, p, self@.fixtures.len() as int) {
                Some(k) => self@.fixtures[k].frame[p - (self@.fixtures[k].channel - 1)],
                None => 0u8,
            } by {
                lemma_universe_byte(self@.fixtures, p);
            }
        }
        chain
    }
}

/// Copies `frame` into `chain` from place `at` on, growing the chain with
/// zeros as far as the frame reaches.
fn place_frame(chain: &mut Vec<u8>, at: usize, frame: &Vec<u8>)
    requires
        at + frame.len() <= usize::MAX,
    ensures
        final(chain)@ == place(old(chain)@, at as int, frame@),
{
    let required = at + frame.len();
    let ghost start = chain@;
    if chain.len() < required {
        chain.resize(required, 0);
    }
    let mut k: usize = 0;
    while k < frame.len()
        invariant
            k <= frame.len(),
            at + frame.len() <= usize::MAX,
            chain@.len() == place(start, at as int, frame@).len(),
            forall|p: int|
                0 <= p < chain@.len() ==> #[trigger] chain@[p] == if at <= p < at + k {
                    frame@[p - at]
                } else if p < start.len() {
                    start[p]
                } else {
                    0u8
                },
        decreases frame.len() - k,
    {
        chain[at + k] = frame[k];
        k += 1;
    }
    assert(chain@ =~= place(start, at as int, frame@));
}

} // verus!
