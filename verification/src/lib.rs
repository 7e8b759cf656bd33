//! A self-describing binary serialization library for structured logging.
//!
//! A producer turns a value into a compact binary payload together with a
//! structural description of its type.  A consumer feeds the description
//! into a registry and then walks the payload with a decoder that emits a
//! stream of typed events into a visitor (for example a textual renderer).
//!
//! The type algebra lives in this file: [`Description`] captures scalars,
//! options, results, arrays, slices, tuples and named references;
//! [`Named`] and [`Struct`] capture the expanded bodies of user-declared
//! sum and product types.  Named references carry a stable identifier so
//! that a type's body is shipped only once per producer session and so
//! that recursive types stay finite.

use vstd::prelude::*;

pub mod buffers;
pub mod decoder;
pub mod describe;
pub mod encoder;
pub mod hexdump;
pub mod render;
pub mod samples;
pub mod strings;
pub mod wire;
pub mod wire_signed;

pub use buffers::BufDecoder;
pub use buffers::BufEncoder;
pub use decoder::Callbacks;
pub use decoder::Decoder;
pub use decoder::Error;
pub use decoder::FeedError;
pub use decoder::NameMap;
pub use encoder::Encoder;

verus! {

broadcast use vstd::std_specs::vec::axiom_vec_index_decreases;

/// Display name of a named type.
pub type TypeName = String;

/// Stable identifier of a named type: a display name plus a disambiguator
/// that separates distinct native types sharing the same display name.
pub type TypeNameId = (TypeName, u16);

/// Mathematical value of a [`TypeNameId`].
pub type TypeNameIdView = (Seq<char>, u16);

/// The view of an identifier: its name as a character sequence plus the
/// disambiguator.
pub open spec fn id_view(id: TypeNameId) -> TypeNameIdView {
    (id.0@, id.1)
}

/// Body shape of a user-declared product type (or of one enum variant).
pub enum Struct {
    /// A unit struct: no fields, no wire bytes.
    Unit,
    /// A tuple struct: fields in order, concatenated on the wire.
    Tuple(Vec<Description>),
    /// A struct with named fields: field order is part of the shape and
    /// only the payloads reach the wire; the names live here.
    Named(Vec<(String, Description)>),
}

/// Expanded body of a user-declared named type.
pub enum Named {
    /// A sum type: variants in declaration order, each with its body.
    Enum(Vec<(String, Struct)>),
    /// A product type.
    Struct(Struct),
}

/// Structural description of a type: the language the decoder interprets.
pub enum Description {
    U64,
    U32,
    U16,
    U8,
    I64,
    I32,
    I16,
    I8,
    Unit,
    Phantom,
    Bool,
    Str,
    RawPtr,
    /// `Option<T>`: one marker byte, then the payload when present.
    Opt(Box<Description>),
    /// `Result<T, E>`: one marker byte, then the chosen payload.
    Res(Box<Description>, Box<Description>),
    /// `[T; N]`: the length is part of the shape, not of the wire.
    Array(usize, Box<Description>),
    /// `[T]`: the length precedes the elements on the wire.
    Slice(Box<Description>),
    /// A tuple: element payloads concatenated.
    Tuple(Vec<Description>),
    /// A reference to a named type.  The body rides along the first time
    /// the type is emitted in a producer session and is elided afterwards.
    ByName(TypeNameId, Option<Named>),
}

/// Mathematical value of a [`Struct`].
pub enum StructView {
    Unit,
    Tuple(Seq<DescriptionView>),
    Named(Seq<(Seq<char>, DescriptionView)>),
}

/// Mathematical value of a [`Named`].
pub enum NamedView {
    Enum(Seq<(Seq<char>, StructView)>),
    Struct(StructView),
}

/// Mathematical value of a [`Description`].
pub enum DescriptionView {
    U64,
    U32,
    U16,
    U8,
    I64,
    I32,
    I16,
    I8,
    Unit,
    Phantom,
    Bool,
    Str,
    RawPtr,
    Opt(Box<DescriptionView>),
    Res(Box<DescriptionView>, Box<DescriptionView>),
    Array(nat, Box<DescriptionView>),
    Slice(Box<DescriptionView>),
    Tuple(Seq<DescriptionView>),
    ByName(TypeNameIdView, Option<NamedView>),
}

/// The mathematical values of a sequence of descriptions, element by element.
pub open spec fn dv_seq(s: Seq<Description>) -> Seq<DescriptionView>
    decreases s,
{
    if s.len() == 0 {
        Seq::empty()
    } else {
        seq![s[0].dv()] + dv_seq(s.subrange(1, s.len() as int))
    }
}

/// The mathematical values of a sequence of named fields.
pub open spec fn field_seq_view(s: Seq<(String, Description)>) -> Seq<(Seq<char>, DescriptionView)>
    decreases s,
{
    if s.len() == 0 {
        Seq::empty()
    } else {
        seq![(s[0].0@, s[0].1.dv())] + field_seq_view(s.subrange(1, s.len() as int))
    }
}

/// The mathematical values of a sequence of enum variants.
pub open spec fn variant_seq_view(s: Seq<(String, Struct)>) -> Seq<(Seq<char>, StructView)>
    decreases s,
{
    if s.len() == 0 {
        Seq::empty()
    } else {
        seq![(s[0].0@, s[0].1.sv())] + variant_seq_view(s.subrange(1, s.len() as int))
    }
}

impl Description {
    /// The mathematical value of this description.
    pub open spec fn dv(self) -> DescriptionView
        decreases self,
    {
        match self {
            Description::U64 => DescriptionView::U64,
            Description::U32 => DescriptionView::U32,
            Description::U16 => DescriptionView::U16,
            Description::U8 => DescriptionView::U8,
            Description::I64 => DescriptionView::I64,
            Description::I32 => DescriptionView::I32,
            Description::I16 => DescriptionView::I16,
            Description::I8 => DescriptionView::I8,
            Description::Unit => DescriptionView::Unit,
            Description::Phantom => DescriptionView::Phantom,
            Description::Bool => DescriptionView::Bool,
            Description::Str => DescriptionView::Str,
            Description::RawPtr => DescriptionView::RawPtr,
            Description::Opt(d) => DescriptionView::Opt(Box::new(d.dv())),
            Description::Res(d, e) => DescriptionView::Res(Box::new(d.dv()), Box::new(e.dv())),
            Description::Array(n, d) => DescriptionView::Array(n as nat, Box::new(d.dv())),
            Description::Slice(d) => DescriptionView::Slice(Box::new(d.dv())),
            Description::Tuple(v) => DescriptionView::Tuple(dv_seq(v@)),
            Description::ByName(id, None) => DescriptionView::ByName(id_view(id), None),
            Description::ByName(id, Some(n)) => DescriptionView::ByName(
                id_view(id),
                Some(n.nv()),
            ),
        }
    }
}

impl Named {
    /// The mathematical value of this body.
    pub open spec fn nv(self) -> NamedView
        decreases self,
    {
        match self {
            Named::Enum(v) => NamedView::Enum(variant_seq_view(v@)),
            Named::Struct(s) => NamedView::Struct(s.sv()),
        }
    }
}

impl Struct {
    /// The mathematical value of this shape.
    pub open spec fn sv(self) -> StructView
        decreases self,
    {
        match self {
            Struct::Unit => StructView::Unit,
            Struct::Tuple(v) => StructView::Tuple(dv_seq(v@)),
            Struct::Named(v) => StructView::Named(field_seq_view(v@)),
        }
    }
}

/// `dv_seq` maps the sequence pointwise: it keeps the length and views
/// each element.
pub proof fn lemma_dv_seq(s: Seq<Description>)
    ensures
        dv_seq(s).len() == s.len(),
        forall|i: int| 0 <= i < s.len() ==> dv_seq(s)[i] == #[trigger] s[i].dv(),
    decreases s.len(),
{
    if s.len() > 0 {
        let t = s.subrange(1, s.len() as int);
        lemma_dv_seq(t);
        assert forall|i: int| 0 <= i < s.len() implies dv_seq(s)[i] == #[trigger] s[i].dv() by {
            if i > 0 {
                assert(t[i - 1] == s[i]);
            }
        }
    }
}

/// `field_seq_view` maps the sequence pointwise.
pub proof fn lemma_field_seq_view(s: Seq<(String, Description)>)
    ensures
        field_seq_view(s).len() == s.len(),
        forall|i: int| 0 <= i < s.len() ==> field_seq_view(s)[i] == (#[trigger] s[i].0@, s[i].1.dv()),
    decreases s.len(),
{
    if s.len() > 0 {
        let t = s.subrange(1, s.len() as int);
        lemma_field_seq_view(t);
        assert forall|i: int| 0 <= i < s.len() implies field_seq_view(s)[i] == (
        #[trigger] s[i].0@,
        s[i].1.dv(),
        ) by {
            if i > 0 {
                assert(t[i - 1] == s[i]);
            }
        }
    }
}

/// The producer registry: it maps each native type, identified by a
/// caller-chosen 64-bit token, to a stable [`TypeNameId`], and remembers
/// which types it has already seen so that a type's body is expanded at
/// most once per session.
pub struct SeenTypes {
    pub by_ids: Vec<(u64, TypeNameId)>,
}

/// The identifier map an entry list denotes: later entries would win,
/// but a well-formed registry never repeats a token.
pub open spec fn ids_map_of(s: Seq<(u64, TypeNameId)>) -> Map<u64, TypeNameIdView>
    decreases s.len(),
{
    if s.len() == 0 {
        Map::empty()
    } else {
        ids_map_of(s.drop_last()).insert(s.last().0, id_view(s.last().1))
    }
}

/// How many entries carry the given display name.
pub open spec fn name_count(s: Seq<(u64, TypeNameId)>, name: Seq<char>) -> nat
    decreases s.len(),
{
    if s.len() == 0 {
        0
    } else {
        name_count(s.drop_last(), name) + if s.last().1.0@ == name {
            1nat
        } else {
            0nat
        }
    }
}

/// The disambiguator handed to the next type with this display name:
/// one past the last, saturating at the largest representable value.
pub open spec fn next_disamb(count: nat) -> u16 {
    if count >= 0xFFFF {
        0xFFFF
    } else {
        count as u16
    }
}

/// The mathematical content of a producer registry: which identifier
/// each token maps to, and how many types of each display name have
/// been sighted so far.
pub struct RegistryView {
    pub ids: Map<u64, TypeNameIdView>,
    pub counts: Map<Seq<char>, nat>,
}

impl View for SeenTypes {
    type V = RegistryView;

    closed spec fn view(&self) -> RegistryView {
        RegistryView {
            ids: ids_map_of(self.by_ids@),
            counts: Map::new(|n: Seq<char>| true, |n: Seq<char>| name_count(self.by_ids@, n)),
        }
    }
}

impl SeenTypes {
    /// The token-to-identifier map this registry holds.
    pub closed spec fn ids_map(self) -> Map<u64, TypeNameIdView> {
        ids_map_of(self.by_ids@)
    }

    /// Tokens are never repeated, and each entry's disambiguator counts
    /// the earlier entries with the same display name.
    pub closed spec fn wf(self) -> bool {
        &&& forall|i: int, j: int|
            0 <= i < j < self.by_ids@.len() ==> (#[trigger] self.by_ids@[i]).0 != (
            #[trigger] self.by_ids@[j]).0
        &&& forall|i: int|
            0 <= i < self.by_ids@.len() ==> (#[trigger] self.by_ids@[i]).1.1 == next_disamb(
                name_count(self.by_ids@.take(i), self.by_ids@[i].1.0@),
            )
    }

    pub fn new() -> (r: Self)
        ensures
            r.wf(),
            r@.ids == Map::<u64, TypeNameIdView>::empty(),
            forall|n: Seq<char>| r@.counts[n] == 0,
    {
        Self { by_ids: Vec::new() }
    }

    /// Look up or mint the identifier for a native type.
    ///
    /// The first sighting of a token returns `true` and a fresh
    /// identifier whose disambiguator counts the earlier types sharing
    /// the display name; every later sighting returns `false` and the
    /// identifier minted the first time, leaving the registry unchanged.
    pub fn make_name_for_id(&mut self, name: &str, token: u64) -> (r: (bool, TypeNameId))
        requires
            old(self).wf(),
        ensures
            final(self).wf(),
            r.0 == !old(self)@.ids.contains_key(token),
            id_view(r.1) == if old(self)@.ids.contains_key(token) {
                old(self)@.ids[token]
            } else {
                (name@, next_disamb(old(self)@.counts[name@]))
            },
            final(self)@.ids == old(self)@.ids.insert(token, id_view(r.1)),
            final(self)@.counts == if old(self)@.ids.contains_key(token) {
                old(self)@.counts
            } else {
                old(self)@.counts.insert(name@, old(self)@.counts[name@] + 1)
            },
            old(self)@.ids.contains_key(token) ==> *final(self) == *old(self),
    {
        let n = self.by_ids.len();
        let mut i: usize = 0;
        let mut count: usize = 0;
        while i < n
            invariant
                n == self.by_ids@.len(),
                i <= n,
                self.wf(),
                count == name_count(self.by_ids@.take(i as int), name@),
                count <= i,
                forall|j: int| 0 <= j < i ==> (#[trigger] self.by_ids@[j]).0 != token,
            decreases n - i,
        {
            let entry_token = self.by_ids[i].0;
            if entry_token == token {
                let id0 = self.by_ids[i].1.0.clone();
                let id1 = self.by_ids[i].1.1;
                proof {
                    lemma_ids_map_found(self.by_ids@, i as int, token);
                    assert(self.ids_map().insert(token, id_view((id0, id1))) =~= self.ids_map());
                }
                return (false, (id0, id1));
            }
            let matches_name = crate::strings::str_eq(self.by_ids[i].1.0.as_str(), name);
            proof {
                assert(self.by_ids@.take(i as int + 1).drop_last() =~= self.by_ids@.take(i as int));
                assert(self.by_ids@.take(i as int + 1).last() == self.by_ids@[i as int]);
            }
            if matches_name {
                count = count + 1;
            }
            i = i + 1;
        }
        proof {
            assert(self.by_ids@.take(n as int) =~= self.by_ids@);
            lemma_ids_map_not_found(self.by_ids@, token);
        }
        let d: u16 = if count >= 0xFFFF {
            0xFFFF
        } else {
            count as u16
        };
        let id_name = crate::strings::string_copy(name);
        let stored: TypeNameId = (id_name, d);
        let ret_name = crate::strings::string_copy(name);
        self.by_ids.push((token, stored));
        proof {
            assert(self.by_ids@.drop_last() =~= old(self).by_ids@);
            assert forall|k: int| 0 <= k < self.by_ids@.len() implies (
            #[trigger] self.by_ids@[k]).1.1 == next_disamb(
                name_count(self.by_ids@.take(k), self.by_ids@[k].1.0@),
            ) by {
                assert(self.by_ids@.take(k) =~= old(self).by_ids@.take(k));
                if k < self.by_ids@.len() - 1 {
                    assert(old(self).wf());
                    assert(self.by_ids@[k] == old(self).by_ids@[k]);
                }
            }
            assert forall|m: Seq<char>| true implies #[trigger] name_count(self.by_ids@, m)
                == if m == name@ {
                name_count(old(self).by_ids@, m) + 1nat
            } else {
                name_count(old(self).by_ids@, m)
            } by {
                assert(self.by_ids@.last().1.0@ == name@);
            }
            assert(self@.counts =~= old(self)@.counts.insert(name@, old(self)@.counts[name@] + 1));
        }
        (true, (ret_name, d))
    }
}

/// Carries a value only to borrow its type's description machinery.
pub struct LogpackTypeWrapper<T>(pub T);

/// A span of time, carried on the wire as whole seconds and a
/// nanosecond remainder — the layout the time-like types share.
#[derive(Clone, Copy, PartialEq, Eq, Structural, Debug)]
pub struct Duration {
    pub secs: u64,
    pub nanos: u32,
}

/// A point on a monotonic clock, carried like [`Duration`].
#[derive(Clone, Copy, PartialEq, Eq, Structural, Debug)]
pub struct Instant {
    pub secs: u64,
    pub nanos: u32,
}

/// The expanded body the time-like types ship: a tuple struct of the
/// 64-bit seconds and the 32-bit nanoseconds.
pub open spec fn time_pair_body() -> NamedView {
    NamedView::Struct(StructView::Tuple(seq![DescriptionView::U64, DescriptionView::U32]))
}

/// The first map never loses or changes an entry in the second.
pub open spec fn map_extends(
    pre: Map<u64, TypeNameIdView>,
    post: Map<u64, TypeNameIdView>,
) -> bool {
    forall|k: u64|
        #[trigger] pre.contains_key(k) ==> post.contains_key(k) && post[k] == pre[k]
}

/// Inserting a fresh or agreeing entry extends a map.
pub proof fn lemma_extends_insert(m: Map<u64, TypeNameIdView>, k: u64, v: TypeNameIdView)
    requires
        !m.contains_key(k) || m[k] == v,
    ensures
        map_extends(m, m.insert(k, v)),
{
}

/// Map extension is transitive.
pub proof fn lemma_extends_trans(
    a: Map<u64, TypeNameIdView>,
    b: Map<u64, TypeNameIdView>,
    c: Map<u64, TypeNameIdView>,
)
    requires
        map_extends(a, b),
        map_extends(b, c),
    ensures
        map_extends(a, c),
{
}

/// What describing a type does, as a function of the registry content:
/// the resulting description value and the registry content afterwards.
/// This is the single spec the executable describe path is held to.
pub trait LogpackType {
    /// The description this type produces from a given registry state,
    /// together with the registry state it leaves behind.
    spec fn spec_describe(pre: RegistryView) -> (DescriptionView, RegistryView);

    /// The token standing for this native type's identity.  Distinct
    /// types must choose distinct tokens; the registry keys its
    /// de-duplication by them.
    spec fn spec_token() -> u64;

    /// The executable form of [`Self::spec_token`].
    fn type_token() -> (t: u64)
        ensures
            t == Self::spec_token(),
    ;

    /// Produce this type's description, registering named types in
    /// `seen` so that each body is expanded at most once per session.
    fn logpack_describe(seen: &mut SeenTypes) -> (d: Description)
        requires
            old(seen).wf(),
        ensures
            final(seen).wf(),
            d.dv() == Self::spec_describe(old(seen)@).0,
            final(seen)@ == Self::spec_describe(old(seen)@).1,
            map_extends(old(seen)@.ids, final(seen)@.ids),
    ;

    /// Like [`Self::logpack_describe`], dispatched on a value.  Only
    /// generic containers over dynamically selected element types need
    /// to override the dispatch; the description is the same.
    fn logpack_describe_by_value(&self, seen: &mut SeenTypes) -> (d: Description)
        requires
            old(seen).wf(),
        ensures
            final(seen).wf(),
            d.dv() == Self::spec_describe(old(seen)@).0,
            final(seen)@ == Self::spec_describe(old(seen)@).1,
            map_extends(old(seen)@.ids, final(seen)@.ids),
    ;
}

/// In a well-formed registry a token that no entry carries is absent
/// from the identifier map.
pub proof fn lemma_ids_map_not_found(s: Seq<(u64, TypeNameId)>, token: u64)
    requires
        forall|j: int| 0 <= j < s.len() ==> (#[trigger] s[j]).0 != token,
    ensures
        !ids_map_of(s).contains_key(token),
    decreases s.len(),
{
    if s.len() > 0 {
        lemma_ids_map_not_found(s.drop_last(), token);
    }
}

/// In a well-formed registry the entry carrying a token decides what
/// the identifier map holds for it.
pub proof fn lemma_ids_map_found(s: Seq<(u64, TypeNameId)>, i: int, token: u64)
    requires
        forall|p: int, q: int| 0 <= p < q < s.len() ==> (#[trigger] s[p]).0 != (#[trigger] s[q]).0,
        0 <= i < s.len(),
        s[i].0 == token,
    ensures
        ids_map_of(s).contains_key(token),
        ids_map_of(s)[token] == id_view(s[i].1),
    decreases s.len(),
{
    if i < s.len() - 1 {
        lemma_ids_map_found(s.drop_last(), i, token);
    }
}

/// Distinct native types that share a display name receive distinct
/// disambiguators, as long as the per-name counter has not saturated.
pub proof fn lemma_distinct_disambiguators(st: SeenTypes, i: int, j: int)
    requires
        st.wf(),
        0 <= i < j < st.by_ids@.len(),
        st.by_ids@[i].1.0@ == st.by_ids@[j].1.0@,
        name_count(st.by_ids@.take(j), st.by_ids@[j].1.0@) < 0xFFFF,
    ensures
        st.by_ids@[i].1.1 != st.by_ids@[j].1.1,
{
    let name = st.by_ids@[j].1.0@;
    let ci = name_count(st.by_ids@.take(i), name);
    let cj = name_count(st.by_ids@.take(j), name);
    assert(name_count(st.by_ids@.take(i + 1), name) == ci + 1) by {
        assert(st.by_ids@.take(i + 1).drop_last() =~= st.by_ids@.take(i));
        assert(st.by_ids@.take(i + 1).last() == st.by_ids@[i]);
    }
    lemma_name_count_mono(st.by_ids@, i + 1, j, name);
    assert(ci + 1 <= cj);
    assert(st.by_ids@[i].1.1 == next_disamb(ci));
    assert(st.by_ids@[j].1.1 == next_disamb(cj));
}

/// The number of same-name entries in a prefix never shrinks as the
/// prefix grows.
pub proof fn lemma_name_count_mono(s: Seq<(u64, TypeNameId)>, i: int, j: int, name: Seq<char>)
    requires
        0 <= i <= j <= s.len(),
    ensures
        name_count(s.take(i), name) <= name_count(s.take(j), name),
    decreases j - i,
{
    if i < j {
        lemma_name_count_mono(s, i, j - 1, name);
        assert(s.take(j).drop_last() =~= s.take(j - 1));
    }
}

/// `variant_seq_view` maps the sequence pointwise.
pub proof fn lemma_variant_seq_view(s: Seq<(String, Struct)>)
    ensures
        variant_seq_view(s).len() == s.len(),
        forall|i: int| 0 <= i < s.len() ==> variant_seq_view(s)[i] == (#[trigger] s[i].0@, s[i].1.sv()),
    decreases s.len(),
{
    if s.len() > 0 {
        let t = s.subrange(1, s.len() as int);
        lemma_variant_seq_view(t);
        assert forall|i: int| 0 <= i < s.len() implies variant_seq_view(s)[i] == (
        #[trigger] s[i].0@,
        s[i].1.sv(),
        ) by {
            if i > 0 {
                assert(t[i - 1] == s[i]);
            }
        }
    }
}

} // verus!
