//! Elements, fixtures and the fixture's own DMX frame.
use crate::light::{byte_of_level, level_byte, Color, Intensity, Rgb};
use crate::names::NameMap;
use vstd::prelude::*;

verus! {

/// What an element is, together with its present state.
#[derive(Clone, Copy, Debug, PartialEq, Eq)]
pub enum ElementKind {
    Intensity(Intensity),
    Rgbiu { rgb: Color, uv: Intensity },
    Rgbi(Color),
    Uv(Intensity),
    Smoke,
    Actuator,
    Gobo,
    Unknown,
}

impl ElementKind {
    /// The same variant in its neutral state: black for colours, 0 for
    /// intensity and UV. The other variants have no state.
    pub open spec fn zeroed(self) -> ElementKind {
        match self {
            ElementKind::Intensity(_) => ElementKind::Intensity(0),
            ElementKind::Rgbi(_) => ElementKind::Rgbi(Color::of(Rgb::black())),
            ElementKind::Rgbiu { .. } => ElementKind::Rgbiu { rgb: Color::of(Rgb::black()), uv: 0 },
            ElementKind::Uv(_) => ElementKind::Uv(0),
            other => other,
        }
    }

    /// The colour in which an element of this kind is drawn: grey at the
    /// level of an intensity, cut to the range of a channel, and the colour
    /// of a colour. The other kinds are not drawn.
    pub open spec fn drawn(self) -> Option<Rgb> {
        match self {
            ElementKind::Intensity(level) => Some(
                (Rgb { r: level as int, g: level as int, b: level as int }).clamped(),
            ),
            ElementKind::Rgbi(color) => Some(color@),
            ElementKind::Rgbiu { rgb, .. } => Some(rgb@),
            _ => None,
        }
    }

    /// The colour in which an element of this kind is drawn, if it is drawn.
    pub fn shown(&self) -> (color: Option<Color>)
        ensures
            match color {
                Some(c) => self.drawn() == Some(c@),
                None => self.drawn() is None,
            },
    {
        match self {
            ElementKind::Intensity(level) => Some(
                Color::new(*level as i64, *level as i64, *level as i64),
            ),
            ElementKind::Rgbi(color) => Some(*color),
            ElementKind::Rgbiu { rgb, .. } => Some(*rgb),
            _ => None,
        }
    }

    /// The same variant in its neutral state.
    pub fn zero(&self) -> (kind: ElementKind)
        ensures
            kind == self.zeroed(),
    {
        let black = Color::black();
        proof {
            Color::lemma_of_view(Rgb::black());
            Color::lemma_view_injective(black, Color::of(Rgb::black()));
        }
        match self {
            ElementKind::Intensity(_) => ElementKind::Intensity(0),
            ElementKind::Rgbi(_) => ElementKind::Rgbi(black),
            ElementKind::Rgbiu { .. } => ElementKind::Rgbiu { rgb: black, uv: 0 },
            ElementKind::Uv(_) => ElementKind::Uv(0),
            ElementKind::Smoke => ElementKind::Smoke,
            ElementKind::Actuator => ElementKind::Actuator,
            ElementKind::Gobo => ElementKind::Gobo,
            ElementKind::Unknown => ElementKind::Unknown,
        }
    }
}

/// An element as a mathematical value: its kind, its channel map as two
/// sequences of equal length, and its place in the visual order.
pub ghost struct ElementModel {
    pub kind: ElementKind,
    pub roles: Seq<Seq<char>>,
    pub indices: Seq<u8>,
    pub pos: (usize, usize),
}

impl ElementModel {
    /// The 1-based frame index that the channel map gives to `role`.
    pub open spec fn channel(self, role: Seq<char>) -> Option<u8> {
        if self.roles.contains(role) {
            Some(self.indices[self.roles.index_of(role)])
        } else {
            None
        }
    }

    /// Every index of the channel map addresses a byte of a frame of `len` bytes.
    pub open spec fn fits(self, len: int) -> bool {
        &&& self.roles.len() == self.indices.len()
        &&& forall|k: int| 0 <= k < self.indices.len() ==> 1 <= #[trigger] self.indices[k] <= len
    }

    /// `frame` with `byte` at the place that `role` maps to. A role that the
    /// map lacks, or that points outside the frame, writes nothing.
    pub open spec fn put(self, frame: Seq<u8>, role: Seq<char>, byte: int) -> Seq<u8> {
        match self.channel(role) {
            Some(c) => if 1 <= c <= frame.len() {
                frame.update(c - 1, byte as u8)
            } else {
                frame
            },
            None => frame,
        }
    }

    /// `frame` with the three colour bytes of `rgb` and full intensity.
    pub open spec fn put_rgbi(self, frame: Seq<u8>, rgb: Rgb) -> Seq<u8> {
        let f1 = self.put(frame, "i"@, 255);
        let f2 = self.put(f1, "r"@, level_byte(rgb.r));
        let f3 = self.put(f2, "g"@, level_byte(rgb.g));
        self.put(f3, "b"@, level_byte(rgb.b))
    }

    /// `frame` after this element has written its state into it.
    pub open spec fn written(self, frame: Seq<u8>) -> Seq<u8> {
        match self.kind {
            ElementKind::Intensity(i) => self.put(frame, "i"@, level_byte(i as int)),
            ElementKind::Rgbi(c) => self.put_rgbi(frame, c@),
            ElementKind::Rgbiu { rgb, uv } => self.put(
                self.put_rgbi(frame, rgb@),
                "uv"@,
                level_byte(uv as int),
            ),
            _ => frame,
        }
    }

    /// No role of this element maps to the byte at `p` (0-based).
    pub open spec fn misses(self, p: int) -> bool {
        forall|k: int| 0 <= k < self.indices.len() ==> #[trigger] self.indices[k] - 1 != p
    }
}

/// `frame` after each of `elements` has written into it, in order: where two
/// elements claim one byte, the later one wins.
pub open spec fn frame_after(elements: Seq<ElementModel>, frame: Seq<u8>) -> Seq<u8>
    decreases elements.len(),
{
    if elements.len() == 0 {
        frame
    } else {
        elements.last().written(frame_after(elements.drop_last(), frame))
    }
}

/// Whether `a` comes before `b` in lexicographic order of code points.
pub open spec fn name_less(a: Seq<char>, b: Seq<char>) -> bool
    decreases a.len(),
{
    if b.len() == 0 {
        false
    } else if a.len() == 0 {
        true
    } else if a[0] != b[0] {
        a[0] < b[0]
    } else {
        name_less(a.drop_first(), b.drop_first())
    }
}

/// How many of the first `n` names come before `name`.
pub open spec fn count_less(names: Seq<Seq<char>>, name: Seq<char>, n: int) -> nat
    decreases n,
{
    if n <= 0 {
        0
    } else {
        count_less(names, name, n - 1) + if name_less(names[n - 1], name) {
            1nat
        } else {
            0nat
        }
    }
}

/// The place of `names[i]` when the names are sorted.
pub open spec fn rank(names: Seq<Seq<char>>, i: int) -> nat {
    count_less(names, names[i], names.len() as int)
}

/// `elements` with every element moved to its rank in the sorted names, on row 0.
pub open spec fn arranged(names: Seq<Seq<char>>, elements: Seq<ElementModel>) -> Seq<
    ElementModel,
> {
    Seq::new(
        elements.len(),
        |i: int| ElementModel { pos: (rank(names, i) as usize, 0usize), ..elements[i] },
    )
}

/// No name comes before itself.
pub proof fn lemma_name_less_irreflexive(a: Seq<char>)
    ensures
        !name_less(a, a),
    decreases a.len(),
{
    if a.len() > 0 {
        lemma_name_less_irreflexive(a.drop_first());
    }
}

/// Of two different names one comes before the other.
pub proof fn lemma_name_less_total(a: Seq<char>, b: Seq<char>)
    requires
        a != b,
    ensures
        name_less(a, b) || name_less(b, a),
    decreases a.len(),
{
    if a.len() > 0 && b.len() > 0 {
        if a[0] == b[0] {
            assert(a.drop_first() != b.drop_first()) by {
                if a.drop_first() == b.drop_first() {
                    assert(a =~= seq![a[0]] + a.drop_first());
                    assert(b =~= seq![b[0]] + b.drop_first());
                }
            }
            lemma_name_less_total(a.drop_first(), b.drop_first());
        }
    } else {
        assert(a.len() != b.len()) by {
            if a.len() == b.len() {
                assert(a =~= b);
            }
        }
    }
}

/// What comes before a name comes before everything that the name comes
/// before.
pub proof fn lemma_name_less_transitive(a: Seq<char>, b: Seq<char>, c: Seq<char>)
    requires
        name_less(a, b),
        name_less(b, c),
    ensures
        name_less(a, c),
    decreases a.len(),
{
    if a.len() > 0 && b.len() > 0 && c.len() > 0 {
        if a[0] == b[0] && b[0] == c[0] {
            lemma_name_less_transitive(a.drop_first(), b.drop_first(), c.drop_first());
        }
    }
}

/// A name that comes later has at least as many names before it, and one
/// more for every time that the earlier name occurs.
pub proof fn lemma_count_less_grows(names: Seq<Seq<char>>, a: Seq<char>, b: Seq<char>, n: int)
    requires
        0 <= n <= names.len(),
        name_less(a, b),
    ensures
        count_less(names, a, n) <= count_less(names, b, n) <= n,
        (exists|k: int| 0 <= k < n && names[k] == a) ==> count_less(names, a, n) < count_less(
            names,
            b,
            n,
        ),
    decreases n,
{
    if n > 0 {
        lemma_count_less_grows(names, a, b, n - 1);
        if name_less(names[n - 1], a) {
            lemma_name_less_transitive(names[n - 1], a, b);
        }
        if names[n - 1] == a {
            lemma_name_less_irreflexive(a);
        }
        if exists|k: int| 0 <= k < n && names[k] == a {
            let k = choose|k: int| 0 <= k < n && names[k] == a;
            if k < n - 1 {
                assert(exists|k: int| 0 <= k < n - 1 && names[k] == a);
            }
        }
    }
}

/// Fewer than all of the names come before one of them.
pub proof fn lemma_count_less_bound(names: Seq<Seq<char>>, i: int, n: int)
    requires
        0 <= n <= names.len(),
        0 <= i < names.len(),
    ensures
        count_less(names, names[i], n) <= n,
        i < n ==> count_less(names, names[i], n) < n,
    decreases n,
{
    if n > 0 {
        lemma_count_less_bound(names, i, n - 1);
        if i == n - 1 {
            lemma_name_less_irreflexive(names[i]);
        }
    }
}

/// The ranks are places in the row, and they follow the order of the names:
/// a name that comes before another has the smaller rank, so names that
/// differ have ranks that differ.
pub proof fn lemma_rank_follows_names(names: Seq<Seq<char>>, i: int, j: int)
    requires
        0 <= i < names.len(),
        0 <= j < names.len(),
    ensures
        rank(names, i) < names.len(),
        name_less(names[i], names[j]) ==> rank(names, i) < rank(names, j),
        names[i] != names[j] ==> rank(names, i) != rank(names, j),
{
    let n = names.len() as int;
    lemma_count_less_bound(names, i, n);
    if name_less(names[i], names[j]) {
        lemma_count_less_grows(names, names[i], names[j], n);
    }
    if names[i] != names[j] {
        lemma_name_less_total(names[i], names[j]);
        if name_less(names[j], names[i]) {
            lemma_count_less_grows(names, names[j], names[i], n);
        }
    }
}

/// Whether `a` comes before `b` in lexicographic order of code points.
pub fn is_name_less(a: &str, b: &str) -> (less: bool)
    ensures
        less == name_less(a@, b@),
{
    let a_len = a.unicode_len();
    let b_len = b.unicode_len();
    let mut i: usize = 0;
    assert(a@.skip(0) =~= a@ && b@.skip(0) =~= b@);
    while i < a_len && i < b_len
        invariant
            a_len == a@.len(),
            b_len == b@.len(),
            i <= a_len,
            i <= b_len,
            name_less(a@, b@) == name_less(a@.skip(i as int), b@.skip(i as int)),
        decreases a_len - i,
    {
        let x = a.get_char(i);
        let y = b.get_char(i);
        proof {
            let sa = a@.skip(i as int);
            let sb = b@.skip(i as int);
            assert(sa[0] == x && sb[0] == y);
            assert(sa.drop_first() =~= a@.skip(i + 1));
            assert(sb.drop_first() =~= b@.skip(i + 1));
        }
        if x != y {
            return x < y;
        }
        i += 1;
    }
    i < b_len
}

/// One logical unit of a fixture: its kind and state, the frame index of each
/// of its roles, and its place in the visual order.
#[derive(Debug)]
pub struct Element {
    kind: ElementKind,
    channels: NameMap<u8>,
    pos: (usize, usize),
}

impl View for Element {
    type V = ElementModel;

    closed spec fn view(&self) -> ElementModel {
        ElementModel {
            kind: self.kind,
            roles: self.channels.names(),
            indices: self.channels.values(),
            pos: self.pos,
        }
    }
}

impl Element {
    /// An element of the given kind, with an empty channel map, at `(0, 0)`.
    pub fn new(kind: ElementKind) -> (element: Element)
        ensures
            element@ == (ElementModel {
                kind,
                roles: Seq::empty(),
                indices: Seq::empty(),
                pos: (0usize, 0usize),
            }),
    {
        Element { kind, channels: NameMap::new(), pos: (0, 0) }
    }

    /// Maps the role `name` to the 1-based frame index `index`. A role that
    /// is already mapped gets the new index.
    pub fn add_channel(&mut self, name: &str, index: u8)
        ensures
            final(self)@.kind == old(self)@.kind,
            final(self)@.pos == old(self)@.pos,
            final(self)@.channel(name@) == Some(index),
            forall|role: Seq<char>|
                role != name@ ==> final(self)@.channel(role) == old(self)@.channel(role),
            final(self)@.roles.len() == final(self)@.indices.len(),
            old(self)@.roles.contains(name@) ==> {
                &&& final(self)@.roles == old(self)@.roles
                &&& final(self)@.indices == old(self)@.indices.update(
                    old(self)@.roles.index_of(name@),
                    index,
                )
            },
            !old(self)@.roles.contains(name@) ==> {
                &&& final(self)@.roles == old(self)@.roles.push(name@)
                &&& final(self)@.indices == old(self)@.indices.push(index)
            },
    {
        let ghost before = self.channels;
        self.channels.insert(name.to_owned(), index);
        proof {
            let after = self.channels;
            assert(after.is_map());
            assert(before.is_map());
            if before.names().contains(name@) {
                let i = before.names().index_of(name@);
                assert(after.names()[i] == name@);
                after.lemma_index_of(name@, i);
                assert forall|role: Seq<char>| role != name@ implies self@.channel(role) == old(
                    self,
                )@.channel(role) by {
                    if before.names().contains(role) {
                        let k = before.names().index_of(role);
                        assert(before.names()[k] == role);
                    }
                }
            } else {
                let i = before.names().len() as int;
                assert(after.names()[i] == name@);
                after.lemma_index_of(name@, i);
                assert forall|role: Seq<char>| role != name@ implies self@.channel(role) == old(
                    self,
                )@.channel(role) by {
                    if before.names().contains(role) {
                        let k = before.names().index_of(role);
                        assert(before.names()[k] == role);
                        assert(after.names()[k] == role);
                        after.lemma_index_of(role, k);
                    } else if after.names().contains(role) {
                        let k = after.names().index_of(role);
                        assert(after.names()[k] == role);
                        assert(k < i);
                        assert(before.names()[k] == role);
                    }
                }
            }
        }
    }

    pub fn kind(&self) -> (kind: &ElementKind)
        ensures
            *kind == self@.kind,
    {
        &self.kind
    }

    /// Replaces the kind, and with it the state, in place.
    pub fn set_kind(&mut self, kind: ElementKind)
        ensures
            final(self)@ == (ElementModel { kind, ..old(self)@ }),
    {
        self.kind = kind;
    }

    pub fn pos(&self) -> (pos: (usize, usize))
        ensures
            pos == self@.pos,
    {
        self.pos
    }

    pub fn set_pos(&mut self, x: usize, y: usize)
        ensures
            final(self)@ == (ElementModel { pos: (x, y), ..old(self)@ }),
    {
        self.pos = (x, y);
    }

    /// The 1-based frame index of `role`, if the channel map has one.
    pub fn channel(&self, role: &str) -> (index: Option<u8>)
        ensures
            index == self@.channel(role@),
            self@.roles.len() == self@.indices.len(),
    {
        match self.channels.get(role) {
            Some(index) => Some(*index),
            None => None,
        }
    }

    /// Whether every index of the channel map addresses a byte of a frame of
    /// `len` bytes.
    pub fn fits(&self, len: usize) -> (fits: bool)
        ensures
            fits == self@.fits(len as int),
    {
        let n = self.channels.len();
        let mut k: usize = 0;
        while k < n
            invariant
                k <= n,
                n == self@.indices.len(),
                n == self@.roles.len(),
                forall|j: int| 0 <= j < k ==> 1 <= #[trigger] self@.indices[j] <= len,
            decreases n - k,
        {
            let index = *self.channels.value(k);
            if index < 1 || index as usize > len {
                return false;
            }
            k += 1;
        }
        true
    }
}

/// The models of a sequence of elements.
pub open spec fn models(elements: Seq<Element>) -> Seq<ElementModel> {
    Seq::new(elements.len(), |i: int| elements[i]@)
}

/// Replacing an element replaces its model, and no other.
pub broadcast proof fn lemma_models_update(elements: Seq<Element>, j: int, element: Element)
    requires
        0 <= j < elements.len(),
    ensures
        #[trigger] models(elements.update(j, element)) == models(elements).update(j, element@),
{
    assert(models(elements.update(j, element)) =~= models(elements).update(j, element@));
}

impl Element {
    /// How many of the names of `elements` come before `name`.
    fn count_before(elements: &NameMap<Element>, name: &str) -> (count: usize)
        ensures
            count == count_less(elements.names(), name@, elements.names().len() as int),
    {
        let n = elements.len();
        let mut count: usize = 0;
        let mut j: usize = 0;
        while j < n
            invariant
                j <= n,
                n == elements.names().len(),
                count <= j,
                count == count_less(elements.names(), name@, j as int),
            decreases n - j,
        {
            if is_name_less(elements.name(j).as_str(), name) {
                count += 1;
            }
            j += 1;
        }
        count
    }

    /// Puts the elements into a row, ordered by name: each element gets the
    /// place that its name has among the sorted names.
    pub fn arrange_linear(elements: &mut NameMap<Element>)
        ensures
            final(elements).names() == old(elements).names(),
            models(final(elements).values()) == arranged(
                old(elements).names(),
                models(old(elements).values()),
            ),
    {
        let n = elements.len();
        let ghost names = elements.names();
        let ghost before = elements.values();
        let mut i: usize = 0;
        while i < n
            invariant
                i <= n,
                n == names.len(),
                n == before.len(),
                elements.names() == names,
                elements.values().len() == n,
                forall|k: int|
                    0 <= k < i ==> (#[trigger] elements.values()[k])@ == (ElementModel {
                        pos: (rank(names, k) as usize, 0usize),
                        ..before[k]@
                    }),
                forall|k: int| i <= k < n ==> #[trigger] elements.values()[k] == before[k],
            decreases n - i,
        {
            let name = elements.name(i).clone();
            let place = Element::count_before(elements, name.as_str());
            let element = elements.value_mut(i);
            element.set_pos(place, 0);
            i += 1;
        }
        assert(models(elements.values()) =~= arranged(names, models(before)));
    }
}

/// A fixture as a mathematical value.
pub ghost struct FixtureModel {
    /// The names of the elements, in the order in which they write.
    pub names: Seq<Seq<char>>,
    /// The elements, each at the place of its name.
    pub elements: Seq<ElementModel>,
    /// Where the fixture is drawn: two IEEE 754 single-precision bit patterns.
    pub pos: (u32, u32),
    /// The fixture's own DMX frame, one byte per channel.
    pub frame: Seq<u8>,
    /// The 1-based universe channel of the first byte of the frame.
    pub channel: usize,
}

impl FixtureModel {
    /// The fixture starts at a channel, its frame ends inside the address
    /// space, and every channel map points into the frame.
    pub open spec fn wf(self) -> bool {
        &&& self.channel >= 1
        &&& self.channel - 1 + self.frame.len() <= usize::MAX
        &&& self.names.len() == self.elements.len()
        &&& forall|i: int|
            0 <= i < self.elements.len() ==> (#[trigger] self.elements[i]).fits(
                self.frame.len() as int,
            )
    }

    /// The universe length that this fixture asks for.
    pub open spec fn span(self) -> int {
        self.channel - 1 + self.frame.len()
    }

    /// Whether the frame of this fixture holds the universe byte at `p` (0-based).
    pub open spec fn covers(self, p: int) -> bool {
        self.channel - 1 <= p < self.span()
    }

    /// This fixture after its elements have written their state into the frame.
    pub open spec fn refreshed(self) -> FixtureModel {
        FixtureModel { frame: frame_after(self.elements, self.frame), ..self }
    }

    /// The place of the element called `name`.
    pub open spec fn index_of(self, name: Seq<char>) -> Option<int> {
        if self.names.contains(name) && self.names.index_of(name) < self.elements.len() {
            Some(self.names.index_of(name))
        } else {
            None
        }
    }

    /// This fixture with the element at place `j` replaced.
    pub open spec fn with_element(self, j: int, element: ElementModel) -> FixtureModel {
        FixtureModel { elements: self.elements.update(j, element), ..self }
    }

    /// This fixture with every element in its neutral state.
    pub open spec fn zeroed(self) -> FixtureModel {
        FixtureModel {
            elements: Seq::new(
                self.elements.len(),
                |j: int| ElementModel { kind: self.elements[j].kind.zeroed(), ..self.elements[j] },
            ),
            ..self
        }
    }
}

/// Writing keeps the length of a frame.
pub proof fn lemma_frame_after_len(elements: Seq<ElementModel>, frame: Seq<u8>)
    ensures
        frame_after(elements, frame).len() == frame.len(),
    decreases elements.len(),
{
    if elements.len() > 0 {
        lemma_frame_after_len(elements.drop_last(), frame);
    }
}

/// A byte that no channel map points to is left as it was.
pub proof fn lemma_frame_after_untouched(elements: Seq<ElementModel>, frame: Seq<u8>, p: int)
    requires
        0 <= p < frame.len(),
        forall|i: int| 0 <= i < elements.len() ==> (#[trigger] elements[i]).misses(p),
        forall|i: int|
            0 <= i < elements.len() ==> (#[trigger] elements[i]).roles.len()
                == elements[i].indices.len(),
    ensures
        frame_after(elements, frame)[p] == frame[p],
    decreases elements.len(),
{
    if elements.len() > 0 {
        let rest = elements.drop_last();
        let last = elements.last();
        assert forall|i: int| 0 <= i < rest.len() implies (#[trigger] rest[i]).misses(p) by {
            assert(rest[i] == elements[i]);
        }
        assert forall|i: int| 0 <= i < rest.len() implies (#[trigger] rest[i]).roles.len()
            == rest[i].indices.len() by {
            assert(rest[i] == elements[i]);
        }
        lemma_frame_after_untouched(rest, frame, p);
        lemma_frame_after_len(rest, frame);
        let inner = frame_after(rest, frame);
        assert(last == elements[elements.len() - 1]);
        assert(last.misses(p));
        assert forall|f: Seq<u8>, role: Seq<char>, byte: int| p < f.len() implies #[trigger] last.put(
            f,
            role,
            byte,
        )[p] == f[p] && last.put(f, role, byte).len() == f.len() by {
            if last.roles.contains(role) {
                let k = last.roles.index_of(role);
                assert(last.indices[k] - 1 != p);
            }
        }
    }
}

/// One physical device: its elements, where it is drawn, its start channel
/// and its own DMX frame.
#[derive(Debug)]
pub struct Fixture {
    elements: NameMap<Element>,
    pos: (u32, u32),
    dmx_vec: Vec<u8>,
    channel: usize,
}

impl View for Fixture {
    type V = FixtureModel;

    closed spec fn view(&self) -> FixtureModel {
        FixtureModel {
            names: self.elements.names(),
            elements: models(self.elements.values()),
            pos: self.pos,
            frame: self.dmx_vec@,
            channel: self.channel,
        }
    }
}

/// Writes `byte` into `frame` at the place that `role` has in the channel map
/// of `element`, if the map has the role.
fn put(frame: &mut Vec<u8>, element: &Element, role: &str, byte: u8)
    requires
        element@.fits(old(frame)@.len() as int),
    ensures
        final(frame)@ == element@.put(old(frame)@, role@, byte as int),
{
    match element.channel(role) {
        Some(c) => {
            proof {
                let k = element@.roles.index_of(role@);
                assert(element@.roles[k] == role@);
                assert(element@.indices[k] == c);
            }
            frame[(c - 1) as usize] = byte;
        },
        None => {},
    }
}

/// Writes full intensity and the three bytes of `color` into `frame`.
fn put_rgbi(frame: &mut Vec<u8>, element: &Element, color: &Color)
    requires
        element@.fits(old(frame)@.len() as int),
    ensures
        final(frame)@ == element@.put_rgbi(old(frame)@, color@),
{
    put(frame, element, "i", 255);
    put(frame, element, "r", byte_of_level(color.r()));
    put(frame, element, "g", byte_of_level(color.g()));
    put(frame, element, "b", byte_of_level(color.b()));
}

/// Writes the state of `element` into `frame`.
fn write_element(frame: &mut Vec<u8>, element: &Element)
    requires
        element@.fits(old(frame)@.len() as int),
    ensures
        final(frame)@ == element@.written(old(frame)@),
{
    match element.kind() {
        ElementKind::Intensity(intensity) => {
            put(frame, element, "i", byte_of_level(*intensity));
        },
        ElementKind::Rgbi(color) => {
            put_rgbi(frame, element, color);
        },
        ElementKind::Rgbiu { rgb, uv } => {
            put_rgbi(frame, element, rgb);
            put(frame, element, "uv", byte_of_level(*uv));
        },
        _ => {},
    }
}

impl Fixture {
    /// A fixture with a dark frame of `num_channels` bytes that starts at the
    /// universe channel `channel`. The elements are put into a row by name.
    pub fn new(elements: NameMap<Element>, pos: (u32, u32), channel: usize, num_channels: usize) -> (fixture: Fixture)
        ensures
            fixture@ == (FixtureModel {
                names: elements.names(),
                elements: arranged(elements.names(), models(elements.values())),
                pos,
                frame: Seq::new(num_channels as nat, |i: int| 0u8),
                channel,
            }),
    {
        let mut elements = elements;
        let mut dmx_vec: Vec<u8> = Vec::new();
        dmx_vec.resize(num_channels, 0);
        Element::arrange_linear(&mut elements);
        assert(dmx_vec@ =~= Seq::new(num_channels as nat, |i: int| 0u8));
        Fixture { elements, pos, dmx_vec, channel }
    }

    pub fn channel(&self) -> (channel: usize)
        ensures
            channel == self@.channel,
    {
        self.channel
    }

    pub fn pos(&self) -> (pos: (u32, u32))
        ensures
            pos == self@.pos,
    {
        self.pos
    }

    pub fn elements(&self) -> (elements: &NameMap<Element>)
        ensures
            elements.names() == self@.names,
            models(elements.values()) == self@.elements,
    {
        &self.elements
    }

    /// The elements, to be changed in place. What is done to them shows in
    /// the fixture; its frame, place and channel stay.
    pub fn elements_mut(&mut self) -> (elements: &mut NameMap<Element>)
        ensures
            elements.names() == old(self)@.names,
            models(elements.values()) == old(self)@.elements,
            final(self)@ == (FixtureModel {
                names: final(elements).names(),
                elements: models(final(elements).values()),
                ..old(self)@
            }),
    {
        &mut self.elements
    }

    /// The fixture's frame as it was last written.
    pub fn dmx(&self) -> (frame: &Vec<u8>)
        ensures
            frame@ == self@.frame,
    {
        &self.dmx_vec
    }

    /// Whether the fixture is well formed.
    pub fn is_wf(&self) -> (ok: bool)
        ensures
            ok == self@.wf(),
    {
        if self.channel < 1 || self.dmx_vec.len() > usize::MAX - (self.channel - 1) {
            return false;
        }
        let n = self.elements.len();
        let len = self.dmx_vec.len();
        let mut i: usize = 0;
        while i < n
            invariant
                i <= n,
                n == self@.elements.len(),
                n == self@.names.len(),
                n == self.elements.values().len(),
                len == self@.frame.len(),
                forall|k: int| 0 <= k < i ==> (#[trigger] self@.elements[k]).fits(len as int),
            decreases n - i,
        {
            if !self.elements.value(i).fits(len) {
                assert(!self@.elements[i as int].fits(len as int));
                return false;
            }
            i += 1;
        }
        true
    }

    /// Puts every element into the neutral state of its variant.
    pub fn zero(&mut self)
        ensures
            final(self)@ == old(self)@.zeroed(),
    {
        let n = self.elements.len();
        let ghost before = self@;
        let mut j: usize = 0;
        while j < n
            invariant
                j <= n,
                n == before.elements.len(),
                n == self.elements.values().len(),
                self@ == (FixtureModel { elements: self@.elements, ..before }),
                self@.elements.len() == n,
                forall|k: int|
                    0 <= k < j ==> #[trigger] self@.elements[k] == (ElementModel {
                        kind: before.elements[k].kind.zeroed(),
                        ..before.elements[k]
                    }),
                forall|k: int| j <= k < n ==> #[trigger] self@.elements[k] == before.elements[k],
            decreases n - j,
        {
            broadcast use lemma_models_update;

            assert(self@.elements[j as int] == before.elements[j as int]);
            let element = self.elements.value_mut(j);
            let kind = element.kind().zero();
            element.set_kind(kind);
            j += 1;
        }
        assert(self@.elements =~= before.zeroed().elements);
    }

    /// Writes the state of every element into the frame, in the order of the
    /// elements. Bytes that no element maps to keep their value.
    pub fn update_dmx(&mut self)
        requires
            old(self)@.wf(),
        ensures
            final(self)@ == old(self)@.refreshed(),
            final(self)@.wf(),
    {
        let n = self.elements.len();
        let ghost elements = self@.elements;
        let ghost start = self@.frame;
        let mut i: usize = 0;
        assert(elements.take(0) =~= Seq::<ElementModel>::empty());
        while i < n
            invariant
                i <= n,
                n == elements.len(),
                n == self.elements.values().len(),
                self@ == (FixtureModel { frame: self@.frame, ..old(self)@ }),
                elements == old(self)@.elements,
                start == old(self)@.frame,
                old(self)@.wf(),
                self@.frame.len() == start.len(),
                self@.frame == frame_after(elements.take(i as int), start),
            decreases n - i,
        {
            let element = self.elements.value(i);
            assert(element@ == elements[i as int]);
            assert(elements[i as int].fits(start.len() as int));
            write_element(&mut self.dmx_vec, element);
            proof {
                let next = elements.take(i + 1);
                assert(next.drop_last() =~= elements.take(i as int));
                assert(next.last() == elements[i as int]);
                lemma_frame_after_len(next, start);
            }
            i += 1;
        }
        assert(elements.take(n as int) =~= elements);
    }
}

} // verus!
