//! The consumer side: the name registry, the feed path, and the
//! description-driven decoder.
//!
//! `feed` absorbs a description: it strips every inline body out of the
//! tree, stores the bodies in the registry keyed by their identifiers,
//! and hands back the stripped description.  Feeding the result again
//! changes nothing — the first pass already elided every body.  The
//! decoder then walks a description and the byte stream in lockstep and
//! reports what it reads to a visitor.

use vstd::prelude::*;

use crate::buffers::BufDecoder;
use crate::strings::str_eq;
use crate::{Description, DescriptionView, Named, NamedView, Struct, StructView};
use crate::{TypeNameId, TypeNameIdView, id_view};
use crate::{dv_seq, field_seq_view, variant_seq_view};
use crate::{lemma_dv_seq, lemma_field_seq_view, lemma_variant_seq_view};

verus! {

broadcast use vstd::std_specs::vec::axiom_vec_index_decreases, crate::wire::lemma_le_bytes_len;

/// The description with every named body stripped: what `feed` returns.
pub open spec fn elide(d: DescriptionView) -> DescriptionView
    decreases d,
{
    match d {
        DescriptionView::Opt(b) => DescriptionView::Opt(Box::new(elide(*b))),
        DescriptionView::Res(a, b) => DescriptionView::Res(
            Box::new(elide(*a)),
            Box::new(elide(*b)),
        ),
        DescriptionView::Array(n, b) => DescriptionView::Array(n, Box::new(elide(*b))),
        DescriptionView::Slice(b) => DescriptionView::Slice(Box::new(elide(*b))),
        DescriptionView::Tuple(s) => DescriptionView::Tuple(elide_seq(s)),
        DescriptionView::ByName(id, _) => DescriptionView::ByName(id, None),
        _ => d,
    }
}

/// Pointwise [`elide`] over a sequence of descriptions.
pub open spec fn elide_seq(s: Seq<DescriptionView>) -> Seq<DescriptionView>
    decreases s,
{
    if s.len() == 0 {
        Seq::empty()
    } else {
        seq![elide(s[0])] + elide_seq(s.subrange(1, s.len() as int))
    }
}

/// A body with the descriptions inside it stripped: what the registry
/// stores for an identifier.
pub open spec fn elide_named(n: NamedView) -> NamedView
    decreases n,
{
    match n {
        NamedView::Enum(vs) => NamedView::Enum(elide_variant_seq(vs)),
        NamedView::Struct(s) => NamedView::Struct(elide_struct(s)),
    }
}

/// Pointwise [`elide_struct`] over enum variants.
pub open spec fn elide_variant_seq(s: Seq<(Seq<char>, StructView)>) -> Seq<(Seq<char>, StructView)>
    decreases s,
{
    if s.len() == 0 {
        Seq::empty()
    } else {
        seq![(s[0].0, elide_struct(s[0].1))] + elide_variant_seq(s.subrange(1, s.len() as int))
    }
}

/// The shape of a product body with its descriptions stripped.
pub open spec fn elide_struct(s: StructView) -> StructView
    decreases s,
{
    match s {
        StructView::Unit => StructView::Unit,
        StructView::Tuple(ds) => StructView::Tuple(elide_seq(ds)),
        StructView::Named(fs) => StructView::Named(elide_field_seq(fs)),
    }
}

/// Pointwise [`elide`] over named fields.
pub open spec fn elide_field_seq(s: Seq<(Seq<char>, DescriptionView)>) -> Seq<(
    Seq<char>,
    DescriptionView,
)>
    decreases s,
{
    if s.len() == 0 {
        Seq::empty()
    } else {
        seq![(s[0].0, elide(s[0].1))] + elide_field_seq(s.subrange(1, s.len() as int))
    }
}

/// A description that carries no inline body anywhere.
pub open spec fn body_free(d: DescriptionView) -> bool
    decreases d,
{
    match d {
        DescriptionView::Opt(b) => body_free(*b),
        DescriptionView::Res(a, b) => body_free(*a) && body_free(*b),
        DescriptionView::Array(n, b) => body_free(*b),
        DescriptionView::Slice(b) => body_free(*b),
        DescriptionView::Tuple(s) => body_free_seq(s),
        DescriptionView::ByName(id, ob) => ob is None,
        _ => true,
    }
}

/// Every description of the sequence is body-free.
pub open spec fn body_free_seq(s: Seq<DescriptionView>) -> bool
    decreases s,
{
    s.len() == 0 || (body_free(s[0]) && body_free_seq(s.subrange(1, s.len() as int)))
}

/// Stripping leaves nothing to strip: the result of `elide` is body-free.
pub proof fn lemma_elide_body_free(d: DescriptionView)
    ensures
        body_free(elide(d)),
    decreases d,
{
    match d {
        DescriptionView::Opt(b) => lemma_elide_body_free(*b),
        DescriptionView::Res(a, b) => {
            lemma_elide_body_free(*a);
            lemma_elide_body_free(*b);
        },
        DescriptionView::Array(n, b) => lemma_elide_body_free(*b),
        DescriptionView::Slice(b) => lemma_elide_body_free(*b),
        DescriptionView::Tuple(s) => lemma_elide_seq_body_free(s),
        _ => {},
    }
}

/// Sequence version of [`lemma_elide_body_free`].
pub proof fn lemma_elide_seq_body_free(s: Seq<DescriptionView>)
    ensures
        body_free_seq(elide_seq(s)),
    decreases s,
{
    if s.len() > 0 {
        lemma_elide_body_free(s[0]);
        lemma_elide_seq_body_free(s.subrange(1, s.len() as int));
        assert(elide_seq(s).subrange(1, elide_seq(s).len() as int) =~= elide_seq(
            s.subrange(1, s.len() as int),
        )) by {
            lemma_elide_seq_len(s.subrange(1, s.len() as int));
        }
    }
}

/// `elide_seq` keeps the length.
pub proof fn lemma_elide_seq_len(s: Seq<DescriptionView>)
    ensures
        elide_seq(s).len() == s.len(),
        forall|i: int| 0 <= i < s.len() ==> elide_seq(s)[i] == elide(#[trigger] s[i]),
    decreases s,
{
    if s.len() > 0 {
        let t = s.subrange(1, s.len() as int);
        lemma_elide_seq_len(t);
        assert forall|i: int| 0 <= i < s.len() implies elide_seq(s)[i] == elide(
            #[trigger] s[i],
        ) by {
            if i > 0 {
                assert(t[i - 1] == s[i]);
            }
        }
    }
}

/// A body-free description is already fully stripped.
pub proof fn lemma_body_free_elide(d: DescriptionView)
    ensures
        body_free(d) ==> elide(d) == d,
    decreases d,
{
    match d {
        DescriptionView::Opt(b) => lemma_body_free_elide(*b),
        DescriptionView::Res(a, b) => {
            lemma_body_free_elide(*a);
            lemma_body_free_elide(*b);
        },
        DescriptionView::Array(n, b) => lemma_body_free_elide(*b),
        DescriptionView::Slice(b) => lemma_body_free_elide(*b),
        DescriptionView::Tuple(s) => {
            lemma_body_free_seq_elide(s);
        },
        _ => {},
    }
}

/// Sequence version of [`lemma_body_free_elide`].
pub proof fn lemma_body_free_seq_elide(s: Seq<DescriptionView>)
    ensures
        body_free_seq(s) ==> elide_seq(s) =~= s,
    decreases s,
{
    if s.len() > 0 {
        lemma_body_free_elide(s[0]);
        lemma_body_free_seq_elide(s.subrange(1, s.len() as int));
        if body_free_seq(s) {
            lemma_elide_seq_len(s);
        }
    }
}

/// Stripping twice is stripping once: together with
/// [`lemma_elide_body_free`] and the feed contract this is what makes a
/// second `feed` of an already-fed description a no-op.
pub proof fn lemma_elide_idempotent(d: DescriptionView)
    ensures
        elide(elide(d)) == elide(d),
{
    lemma_elide_body_free(d);
    lemma_body_free_elide(elide(d));
}

/// `elide_variant_seq` maps the sequence pointwise.
pub proof fn lemma_elide_variant_seq_len(s: Seq<(Seq<char>, StructView)>)
    ensures
        elide_variant_seq(s).len() == s.len(),
        forall|i: int|
            0 <= i < s.len() ==> elide_variant_seq(s)[i] == ((#[trigger] s[i]).0, elide_struct(
                s[i].1,
            )),
    decreases s,
{
    if s.len() > 0 {
        let t = s.subrange(1, s.len() as int);
        lemma_elide_variant_seq_len(t);
        assert forall|i: int| 0 <= i < s.len() implies elide_variant_seq(s)[i] == ((
        #[trigger] s[i]).0, elide_struct(s[i].1)) by {
            if i > 0 {
                assert(t[i - 1] == s[i]);
            }
        }
    }
}

/// `elide_field_seq` maps the sequence pointwise.
pub proof fn lemma_elide_field_seq_len(s: Seq<(Seq<char>, DescriptionView)>)
    ensures
        elide_field_seq(s).len() == s.len(),
        forall|i: int|
            0 <= i < s.len() ==> elide_field_seq(s)[i] == ((#[trigger] s[i]).0, elide(s[i].1)),
    decreases s,
{
    if s.len() > 0 {
        let t = s.subrange(1, s.len() as int);
        lemma_elide_field_seq_len(t);
        assert forall|i: int| 0 <= i < s.len() implies elide_field_seq(s)[i] == ((
        #[trigger] s[i]).0, elide(s[i].1)) by {
            if i > 0 {
                assert(t[i - 1] == s[i]);
            }
        }
    }
}

/// The feed walk, as mathematics: absorbing a description either fails
/// on the first conflicting duplicate body, or yields the stripped
/// description together with the registry holding every inline body it
/// met, bound under its identifier in walk order.  This is the single
/// spec the executable feed path is held to.
pub open spec fn feed_desc(
    m: Map<TypeNameIdView, NamedView>,
    d: DescriptionView,
) -> Option<(DescriptionView, Map<TypeNameIdView, NamedView>)>
    decreases d, 0int,
{
    match d {
        DescriptionView::Opt(b) => match feed_desc(m, *b) {
            Some((b2, m2)) => Some((DescriptionView::Opt(Box::new(b2)), m2)),
            None => None,
        },
        DescriptionView::Res(a, b) => match feed_desc(m, *a) {
            Some((a2, m1)) => match feed_desc(m1, *b) {
                Some((b2, m2)) => Some(
                    (DescriptionView::Res(Box::new(a2), Box::new(b2)), m2),
                ),
                None => None,
            },
            None => None,
        },
        DescriptionView::Array(n, b) => match feed_desc(m, *b) {
            Some((b2, m2)) => Some((DescriptionView::Array(n, Box::new(b2)), m2)),
            None => None,
        },
        DescriptionView::Slice(b) => match feed_desc(m, *b) {
            Some((b2, m2)) => Some((DescriptionView::Slice(Box::new(b2)), m2)),
            None => None,
        },
        DescriptionView::Tuple(ds) => match feed_desc_seq(m, ds) {
            Some((ds2, m2)) => Some((DescriptionView::Tuple(ds2), m2)),
            None => None,
        },
        DescriptionView::ByName(id, Some(b)) => match feed_body(m, b) {
            Some((b2, m2)) => if m2.contains_key(id) && m2[id] != b2 {
                None
            } else {
                Some((DescriptionView::ByName(id, None), m2.insert(id, b2)))
            },
            None => None,
        },
        _ => Some((d, m)),
    }
}

/// The feed walk over a sequence of descriptions, left to right.
pub open spec fn feed_desc_seq(
    m: Map<TypeNameIdView, NamedView>,
    s: Seq<DescriptionView>,
) -> Option<(Seq<DescriptionView>, Map<TypeNameIdView, NamedView>)>
    decreases s, 0int,
{
    if s.len() == 0 {
        Some((Seq::empty(), m))
    } else {
        match feed_desc(m, s[0]) {
            Some((d2, m1)) => match feed_desc_seq(m1, s.subrange(1, s.len() as int)) {
                Some((rest, m2)) => Some((seq![d2] + rest, m2)),
                None => None,
            },
            None => None,
        }
    }
}

/// The feed walk over a named body.
pub open spec fn feed_body(m: Map<TypeNameIdView, NamedView>, n: NamedView) -> Option<
    (NamedView, Map<TypeNameIdView, NamedView>),
>
    decreases n, 0int,
{
    match n {
        NamedView::Enum(vs) => match feed_variant_seq(m, vs) {
            Some((vs2, m2)) => Some((NamedView::Enum(vs2), m2)),
            None => None,
        },
        NamedView::Struct(s) => match feed_shape(m, s) {
            Some((s2, m2)) => Some((NamedView::Struct(s2), m2)),
            None => None,
        },
    }
}

/// The feed walk over a product shape.
pub open spec fn feed_shape(m: Map<TypeNameIdView, NamedView>, s: StructView) -> Option<
    (StructView, Map<TypeNameIdView, NamedView>),
>
    decreases s, 0int,
{
    match s {
        StructView::Unit => Some((StructView::Unit, m)),
        StructView::Tuple(ds) => match feed_desc_seq(m, ds) {
            Some((ds2, m2)) => Some((StructView::Tuple(ds2), m2)),
            None => None,
        },
        StructView::Named(fs) => match feed_field_seq(m, fs) {
            Some((fs2, m2)) => Some((StructView::Named(fs2), m2)),
            None => None,
        },
    }
}

/// The feed walk over named fields, left to right, names untouched.
pub open spec fn feed_field_seq(
    m: Map<TypeNameIdView, NamedView>,
    fs: Seq<(Seq<char>, DescriptionView)>,
) -> Option<(Seq<(Seq<char>, DescriptionView)>, Map<TypeNameIdView, NamedView>)>
    decreases fs, 0int,
{
    if fs.len() == 0 {
        Some((Seq::empty(), m))
    } else {
        match feed_desc(m, fs[0].1) {
            Some((d2, m1)) => match feed_field_seq(m1, fs.subrange(1, fs.len() as int)) {
                Some((rest, m2)) => Some((seq![(fs[0].0, d2)] + rest, m2)),
                None => None,
            },
            None => None,
        }
    }
}

/// The feed walk over enum variants, left to right, names untouched.
pub open spec fn feed_variant_seq(
    m: Map<TypeNameIdView, NamedView>,
    vs: Seq<(Seq<char>, StructView)>,
) -> Option<(Seq<(Seq<char>, StructView)>, Map<TypeNameIdView, NamedView>)>
    decreases vs, 0int,
{
    if vs.len() == 0 {
        Some((Seq::empty(), m))
    } else {
        match feed_shape(m, vs[0].1) {
            Some((s2, m1)) => match feed_variant_seq(m1, vs.subrange(1, vs.len() as int)) {
                Some((rest, m2)) => Some((seq![(vs[0].0, s2)] + rest, m2)),
                None => None,
            },
            None => None,
        }
    }
}

/// A successful feed walk returns exactly the stripped description and
/// only ever adds or re-confirms registry bindings.
pub proof fn lemma_feed_desc_facts(m: Map<TypeNameIdView, NamedView>, d: DescriptionView)
    ensures
        feed_desc(m, d) matches Some((d2, m2)) ==> d2 == elide(d) && nm_extends(m, m2),
    decreases d, 1int,
{
    match d {
        DescriptionView::Opt(b) => lemma_feed_desc_facts(m, *b),
        DescriptionView::Res(a, b) => {
            lemma_feed_desc_facts(m, *a);
            if feed_desc(m, *a) is Some {
                lemma_feed_desc_facts(feed_desc(m, *a)->Some_0.1, *b);
            }
        },
        DescriptionView::Array(n, b) => lemma_feed_desc_facts(m, *b),
        DescriptionView::Slice(b) => lemma_feed_desc_facts(m, *b),
        DescriptionView::Tuple(ds) => lemma_feed_desc_seq_facts(m, ds),
        DescriptionView::ByName(id, ob) => {
            if ob is Some {
                let b = ob->0;
                lemma_feed_body_facts(m, b);
            }
        },
        _ => {},
    }
}

/// Sequence version of [`lemma_feed_desc_facts`].
pub proof fn lemma_feed_desc_seq_facts(m: Map<TypeNameIdView, NamedView>, s: Seq<DescriptionView>)
    ensures
        feed_desc_seq(m, s) matches Some((s2, m2)) ==> s2 == elide_seq(s) && nm_extends(m, m2),
    decreases s, 1int,
{
    if s.len() > 0 {
        lemma_feed_desc_facts(m, s[0]);
        if feed_desc(m, s[0]) is Some {
            let m1 = feed_desc(m, s[0])->Some_0.1;
            let t = s.subrange(1, s.len() as int);
            lemma_feed_desc_seq_facts(m1, t);
            if feed_desc_seq(m1, t) is Some {
                assert(seq![feed_desc(m, s[0])->Some_0.0] + feed_desc_seq(m1, t)->Some_0.0
                    =~= elide_seq(s));
            }
        }
    }
}

/// Body version of [`lemma_feed_desc_facts`].
pub proof fn lemma_feed_body_facts(m: Map<TypeNameIdView, NamedView>, n: NamedView)
    ensures
        feed_body(m, n) matches Some((n2, m2)) ==> n2 == elide_named(n) && nm_extends(m, m2),
    decreases n, 1int,
{
    match n {
        NamedView::Enum(vs) => lemma_feed_variant_seq_facts(m, vs),
        NamedView::Struct(s) => lemma_feed_shape_facts(m, s),
    }
}

/// Shape version of [`lemma_feed_desc_facts`].
pub proof fn lemma_feed_shape_facts(m: Map<TypeNameIdView, NamedView>, s: StructView)
    ensures
        feed_shape(m, s) matches Some((s2, m2)) ==> s2 == elide_struct(s) && nm_extends(m, m2),
    decreases s, 1int,
{
    match s {
        StructView::Unit => {},
        StructView::Tuple(ds) => lemma_feed_desc_seq_facts(m, ds),
        StructView::Named(fs) => lemma_feed_field_seq_facts(m, fs),
    }
}

/// Field-sequence version of [`lemma_feed_desc_facts`].
pub proof fn lemma_feed_field_seq_facts(
    m: Map<TypeNameIdView, NamedView>,
    fs: Seq<(Seq<char>, DescriptionView)>,
)
    ensures
        feed_field_seq(m, fs) matches Some((fs2, m2)) ==> fs2 == elide_field_seq(fs)
            && nm_extends(m, m2),
    decreases fs, 1int,
{
    if fs.len() > 0 {
        lemma_feed_desc_facts(m, fs[0].1);
        if feed_desc(m, fs[0].1) is Some {
            let m1 = feed_desc(m, fs[0].1)->Some_0.1;
            let t = fs.subrange(1, fs.len() as int);
            lemma_feed_field_seq_facts(m1, t);
            if feed_field_seq(m1, t) is Some {
                assert(seq![(fs[0].0, feed_desc(m, fs[0].1)->Some_0.0)] + feed_field_seq(
                    m1,
                    t,
                )->Some_0.0 =~= elide_field_seq(fs));
            }
        }
    }
}

/// Variant-sequence version of [`lemma_feed_desc_facts`].
pub proof fn lemma_feed_variant_seq_facts(
    m: Map<TypeNameIdView, NamedView>,
    vs: Seq<(Seq<char>, StructView)>,
)
    ensures
        feed_variant_seq(m, vs) matches Some((vs2, m2)) ==> vs2 == elide_variant_seq(vs)
            && nm_extends(m, m2),
    decreases vs, 1int,
{
    if vs.len() > 0 {
        lemma_feed_shape_facts(m, vs[0].1);
        if feed_shape(m, vs[0].1) is Some {
            let m1 = feed_shape(m, vs[0].1)->Some_0.1;
            let t = vs.subrange(1, vs.len() as int);
            lemma_feed_variant_seq_facts(m1, t);
            if feed_variant_seq(m1, t) is Some {
                assert(seq![(vs[0].0, feed_shape(m, vs[0].1)->Some_0.0)] + feed_variant_seq(
                    m1,
                    t,
                )->Some_0.0 =~= elide_variant_seq(vs));
            }
        }
    }
}

/// A body-free description feeds to itself and touches nothing: the
/// walk is a no-op on anything a first feed already stripped.
pub proof fn lemma_feed_desc_body_free(m: Map<TypeNameIdView, NamedView>, d: DescriptionView)
    ensures
        body_free(d) ==> feed_desc(m, d) == Some((d, m)),
    decreases d,
{
    match d {
        DescriptionView::Opt(b) => {
            lemma_feed_desc_body_free(m, *b);
        },
        DescriptionView::Res(a, b) => {
            lemma_feed_desc_body_free(m, *a);
            lemma_feed_desc_body_free(m, *b);
        },
        DescriptionView::Array(n, b) => lemma_feed_desc_body_free(m, *b),
        DescriptionView::Slice(b) => lemma_feed_desc_body_free(m, *b),
        DescriptionView::Tuple(ds) => {
            lemma_feed_desc_seq_body_free(m, ds);
        },
        _ => {},
    }
}

/// Sequence version of [`lemma_feed_desc_body_free`].
pub proof fn lemma_feed_desc_seq_body_free(
    m: Map<TypeNameIdView, NamedView>,
    s: Seq<DescriptionView>,
)
    ensures
        body_free_seq(s) ==> feed_desc_seq(m, s) == Some((s, m)),
    decreases s,
{
    if s.len() > 0 {
        lemma_feed_desc_body_free(m, s[0]);
        let t = s.subrange(1, s.len() as int);
        lemma_feed_desc_seq_body_free(m, t);
        if body_free_seq(s) {
            assert(seq![s[0]] + t =~= s);
        }
    }
}

/// Every inline body anywhere inside the description is bound in the
/// map, under its identifier, to its stripped form.
pub open spec fn inline_bodies_bound(m: Map<TypeNameIdView, NamedView>, d: DescriptionView) -> bool
    decreases d,
{
    match d {
        DescriptionView::Opt(b) => inline_bodies_bound(m, *b),
        DescriptionView::Res(a, b) => inline_bodies_bound(m, *a) && inline_bodies_bound(m, *b),
        DescriptionView::Array(n, b) => inline_bodies_bound(m, *b),
        DescriptionView::Slice(b) => inline_bodies_bound(m, *b),
        DescriptionView::Tuple(ds) => inline_bodies_bound_seq(m, ds),
        DescriptionView::ByName(id, ob) => match ob {
            Some(b) => m.contains_key(id) && m[id] == elide_named(b) && inline_bodies_bound_body(
                m,
                b,
            ),
            None => true,
        },
        _ => true,
    }
}

/// Sequence version of [`inline_bodies_bound`].
pub open spec fn inline_bodies_bound_seq(
    m: Map<TypeNameIdView, NamedView>,
    s: Seq<DescriptionView>,
) -> bool
    decreases s,
{
    s.len() == 0 || (inline_bodies_bound(m, s[0]) && inline_bodies_bound_seq(
        m,
        s.subrange(1, s.len() as int),
    ))
}

/// Body version of [`inline_bodies_bound`].
pub open spec fn inline_bodies_bound_body(
    m: Map<TypeNameIdView, NamedView>,
    n: NamedView,
) -> bool
    decreases n,
{
    match n {
        NamedView::Enum(vs) => inline_bodies_bound_variants(m, vs),
        NamedView::Struct(s) => inline_bodies_bound_shape(m, s),
    }
}

/// Shape version of [`inline_bodies_bound`].
pub open spec fn inline_bodies_bound_shape(
    m: Map<TypeNameIdView, NamedView>,
    s: StructView,
) -> bool
    decreases s,
{
    match s {
        StructView::Unit => true,
        StructView::Tuple(ds) => inline_bodies_bound_seq(m, ds),
        StructView::Named(fs) => inline_bodies_bound_fields(m, fs),
    }
}

/// Field version of [`inline_bodies_bound`].
pub open spec fn inline_bodies_bound_fields(
    m: Map<TypeNameIdView, NamedView>,
    fs: Seq<(Seq<char>, DescriptionView)>,
) -> bool
    decreases fs,
{
    fs.len() == 0 || (inline_bodies_bound(m, fs[0].1) && inline_bodies_bound_fields(
        m,
        fs.subrange(1, fs.len() as int),
    ))
}

/// Variant version of [`inline_bodies_bound`].
pub open spec fn inline_bodies_bound_variants(
    m: Map<TypeNameIdView, NamedView>,
    vs: Seq<(Seq<char>, StructView)>,
) -> bool
    decreases vs,
{
    vs.len() == 0 || (inline_bodies_bound_shape(m, vs[0].1) && inline_bodies_bound_variants(
        m,
        vs.subrange(1, vs.len() as int),
    ))
}

/// Bindings survive extension: a bound description stays bound in any
/// map that keeps every entry.
pub proof fn lemma_bound_mono(
    m1: Map<TypeNameIdView, NamedView>,
    m2: Map<TypeNameIdView, NamedView>,
    d: DescriptionView,
)
    requires
        nm_extends(m1, m2),
        inline_bodies_bound(m1, d),
    ensures
        inline_bodies_bound(m2, d),
    decreases d, 0int,
{
    match d {
        DescriptionView::Opt(b) => lemma_bound_mono(m1, m2, *b),
        DescriptionView::Res(a, b) => {
            lemma_bound_mono(m1, m2, *a);
            lemma_bound_mono(m1, m2, *b);
        },
        DescriptionView::Array(n, b) => lemma_bound_mono(m1, m2, *b),
        DescriptionView::Slice(b) => lemma_bound_mono(m1, m2, *b),
        DescriptionView::Tuple(ds) => lemma_bound_mono_seq(m1, m2, ds),
        DescriptionView::ByName(id, ob) => {
            if ob is Some {
                lemma_bound_mono_body(m1, m2, ob->0);
            }
        },
        _ => {},
    }
}

/// Sequence version of [`lemma_bound_mono`].
pub proof fn lemma_bound_mono_seq(
    m1: Map<TypeNameIdView, NamedView>,
    m2: Map<TypeNameIdView, NamedView>,
    s: Seq<DescriptionView>,
)
    requires
        nm_extends(m1, m2),
        inline_bodies_bound_seq(m1, s),
    ensures
        inline_bodies_bound_seq(m2, s),
    decreases s, 0int,
{
    if s.len() > 0 {
        lemma_bound_mono(m1, m2, s[0]);
        lemma_bound_mono_seq(m1, m2, s.subrange(1, s.len() as int));
    }
}

/// Body version of [`lemma_bound_mono`].
pub proof fn lemma_bound_mono_body(
    m1: Map<TypeNameIdView, NamedView>,
    m2: Map<TypeNameIdView, NamedView>,
    n: NamedView,
)
    requires
        nm_extends(m1, m2),
        inline_bodies_bound_body(m1, n),
    ensures
        inline_bodies_bound_body(m2, n),
    decreases n, 0int,
{
    match n {
        NamedView::Enum(vs) => lemma_bound_mono_variants(m1, m2, vs),
        NamedView::Struct(s) => lemma_bound_mono_shape(m1, m2, s),
    }
}

/// Shape version of [`lemma_bound_mono`].
pub proof fn lemma_bound_mono_shape(
    m1: Map<TypeNameIdView, NamedView>,
    m2: Map<TypeNameIdView, NamedView>,
    s: StructView,
)
    requires
        nm_extends(m1, m2),
        inline_bodies_bound_shape(m1, s),
    ensures
        inline_bodies_bound_shape(m2, s),
    decreases s, 0int,
{
    match s {
        StructView::Unit => {},
        StructView::Tuple(ds) => lemma_bound_mono_seq(m1, m2, ds),
        StructView::Named(fs) => lemma_bound_mono_fields(m1, m2, fs),
    }
}

/// Field version of [`lemma_bound_mono`].
pub proof fn lemma_bound_mono_fields(
    m1: Map<TypeNameIdView, NamedView>,
    m2: Map<TypeNameIdView, NamedView>,
    fs: Seq<(Seq<char>, DescriptionView)>,
)
    requires
        nm_extends(m1, m2),
        inline_bodies_bound_fields(m1, fs),
    ensures
        inline_bodies_bound_fields(m2, fs),
    decreases fs, 0int,
{
    if fs.len() > 0 {
        lemma_bound_mono(m1, m2, fs[0].1);
        lemma_bound_mono_fields(m1, m2, fs.subrange(1, fs.len() as int));
    }
}

/// Variant version of [`lemma_bound_mono`].
pub proof fn lemma_bound_mono_variants(
    m1: Map<TypeNameIdView, NamedView>,
    m2: Map<TypeNameIdView, NamedView>,
    vs: Seq<(Seq<char>, StructView)>,
)
    requires
        nm_extends(m1, m2),
        inline_bodies_bound_variants(m1, vs),
    ensures
        inline_bodies_bound_variants(m2, vs),
    decreases vs, 0int,
{
    if vs.len() > 0 {
        lemma_bound_mono_shape(m1, m2, vs[0].1);
        lemma_bound_mono_variants(m1, m2, vs.subrange(1, vs.len() as int));
    }
}

/// A successful feed walk leaves every inline body of the absorbed
/// description bound in the registry it returns — spec 4.5's
/// post-condition that all named type contents live in the map.
pub proof fn lemma_feed_binds_bodies(m: Map<TypeNameIdView, NamedView>, d: DescriptionView)
    ensures
        feed_desc(m, d) matches Some((d2, m2)) ==> inline_bodies_bound(m2, d),
    decreases d, 1int,
{
    match d {
        DescriptionView::Opt(b) => lemma_feed_binds_bodies(m, *b),
        DescriptionView::Res(a, b) => {
            lemma_feed_binds_bodies(m, *a);
            if feed_desc(m, *a) is Some {
                let m1 = feed_desc(m, *a)->Some_0.1;
                lemma_feed_binds_bodies(m1, *b);
                lemma_feed_desc_facts(m1, *b);
                if feed_desc(m1, *b) is Some {
                    lemma_bound_mono(m1, feed_desc(m1, *b)->Some_0.1, *a);
                }
            }
        },
        DescriptionView::Array(n, b) => lemma_feed_binds_bodies(m, *b),
        DescriptionView::Slice(b) => lemma_feed_binds_bodies(m, *b),
        DescriptionView::Tuple(ds) => lemma_feed_binds_bodies_seq(m, ds),
        DescriptionView::ByName(id, ob) => {
            if ob is Some {
                let b = ob->0;
                lemma_feed_binds_bodies_body(m, b);
                lemma_feed_body_facts(m, b);
                if feed_body(m, b) is Some {
                    let (b2, mb) = feed_body(m, b)->Some_0;
                    if !(mb.contains_key(id) && mb[id] != b2) {
                        assert(nm_extends(mb, mb.insert(id, b2)));
                        lemma_bound_mono_body(mb, mb.insert(id, b2), b);
                    }
                }
            }
        },
        _ => {},
    }
}

/// Sequence version of [`lemma_feed_binds_bodies`].
pub proof fn lemma_feed_binds_bodies_seq(
    m: Map<TypeNameIdView, NamedView>,
    s: Seq<DescriptionView>,
)
    ensures
        feed_desc_seq(m, s) matches Some((s2, m2)) ==> inline_bodies_bound_seq(m2, s),
    decreases s, 1int,
{
    if s.len() > 0 {
        lemma_feed_binds_bodies(m, s[0]);
        lemma_feed_desc_facts(m, s[0]);
        if feed_desc(m, s[0]) is Some {
            let m1 = feed_desc(m, s[0])->Some_0.1;
            let t = s.subrange(1, s.len() as int);
            lemma_feed_binds_bodies_seq(m1, t);
            lemma_feed_desc_seq_facts(m1, t);
            if feed_desc_seq(m1, t) is Some {
                lemma_bound_mono(m1, feed_desc_seq(m1, t)->Some_0.1, s[0]);
            }
        }
    }
}

/// Body version of [`lemma_feed_binds_bodies`].
pub proof fn lemma_feed_binds_bodies_body(m: Map<TypeNameIdView, NamedView>, n: NamedView)
    ensures
        feed_body(m, n) matches Some((n2, m2)) ==> inline_bodies_bound_body(m2, n),
    decreases n, 1int,
{
    match n {
        NamedView::Enum(vs) => lemma_feed_binds_bodies_variants(m, vs),
        NamedView::Struct(s) => lemma_feed_binds_bodies_shape(m, s),
    }
}

/// Shape version of [`lemma_feed_binds_bodies`].
pub proof fn lemma_feed_binds_bodies_shape(m: Map<TypeNameIdView, NamedView>, s: StructView)
    ensures
        feed_shape(m, s) matches Some((s2, m2)) ==> inline_bodies_bound_shape(m2, s),
    decreases s, 1int,
{
    match s {
        StructView::Unit => {},
        StructView::Tuple(ds) => lemma_feed_binds_bodies_seq(m, ds),
        StructView::Named(fs) => lemma_feed_binds_bodies_fields(m, fs),
    }
}

/// Field version of [`lemma_feed_binds_bodies`].
pub proof fn lemma_feed_binds_bodies_fields(
    m: Map<TypeNameIdView, NamedView>,
    fs: Seq<(Seq<char>, DescriptionView)>,
)
    ensures
        feed_field_seq(m, fs) matches Some((fs2, m2)) ==> inline_bodies_bound_fields(m2, fs),
    decreases fs, 1int,
{
    if fs.len() > 0 {
        lemma_feed_binds_bodies(m, fs[0].1);
        lemma_feed_desc_facts(m, fs[0].1);
        if feed_desc(m, fs[0].1) is Some {
            let m1 = feed_desc(m, fs[0].1)->Some_0.1;
            let t = fs.subrange(1, fs.len() as int);
            lemma_feed_binds_bodies_fields(m1, t);
            lemma_feed_field_seq_facts(m1, t);
            if feed_field_seq(m1, t) is Some {
                lemma_bound_mono(m1, feed_field_seq(m1, t)->Some_0.1, fs[0].1);
            }
        }
    }
}

/// Variant version of [`lemma_feed_binds_bodies`].
pub proof fn lemma_feed_binds_bodies_variants(
    m: Map<TypeNameIdView, NamedView>,
    vs: Seq<(Seq<char>, StructView)>,
)
    ensures
        feed_variant_seq(m, vs) matches Some((vs2, m2)) ==> inline_bodies_bound_variants(m2, vs),
    decreases vs, 1int,
{
    if vs.len() > 0 {
        lemma_feed_binds_bodies_shape(m, vs[0].1);
        lemma_feed_shape_facts(m, vs[0].1);
        if feed_shape(m, vs[0].1) is Some {
            let m1 = feed_shape(m, vs[0].1)->Some_0.1;
            let t = vs.subrange(1, vs.len() as int);
            lemma_feed_binds_bodies_variants(m1, t);
            lemma_feed_variant_seq_facts(m1, t);
            if feed_variant_seq(m1, t) is Some {
                lemma_bound_mono_shape(m1, feed_variant_seq(m1, t)->Some_0.1, vs[0].1);
            }
        }
    }
}

/// Each description of a body-free sequence is body-free.
pub proof fn lemma_body_free_seq_index(s: Seq<DescriptionView>, i: int)
    requires
        0 <= i < s.len(),
        body_free_seq(s),
    ensures
        body_free(s[i]),
    decreases i,
{
    if i > 0 {
        lemma_body_free_seq_index(s.subrange(1, s.len() as int), i - 1);
    }
}

/// Why a feed failed.
#[derive(Debug, PartialEq, Eq, Structural)]
pub enum FeedError {
    /// Two inline bodies under the same identifier disagreed.
    Dups,
}

/// The outcome of a feed.
pub type FeedResult<T> = Result<T, FeedError>;

/// The consumer registry: the bodies of the named types it has absorbed,
/// keyed by their identifiers.
pub struct NameMap {
    pub entries: Vec<(TypeNameId, Named)>,
}

/// The body map an entry list denotes.
pub open spec fn nm_map_of(s: Seq<(TypeNameId, Named)>) -> Map<TypeNameIdView, NamedView>
    decreases s.len(),
{
    if s.len() == 0 {
        Map::empty()
    } else {
        nm_map_of(s.drop_last()).insert(id_view(s.last().0), s.last().1.nv())
    }
}

impl View for NameMap {
    type V = Map<TypeNameIdView, NamedView>;

    closed spec fn view(&self) -> Map<TypeNameIdView, NamedView> {
        nm_map_of(self.entries@)
    }
}

/// The first body map never loses or changes an entry in the second.
pub open spec fn nm_extends(
    pre: Map<TypeNameIdView, NamedView>,
    post: Map<TypeNameIdView, NamedView>,
) -> bool {
    forall|k: TypeNameIdView|
        #[trigger] pre.contains_key(k) ==> post.contains_key(k) && post[k] == pre[k]
}

/// An identifier that no entry carries is absent from the body map.
proof fn lemma_nm_not_found(s: Seq<(TypeNameId, Named)>, idv: TypeNameIdView)
    requires
        forall|j: int| 0 <= j < s.len() ==> id_view((#[trigger] s[j]).0) != idv,
    ensures
        !nm_map_of(s).contains_key(idv),
    decreases s.len(),
{
    if s.len() > 0 {
        lemma_nm_not_found(s.drop_last(), idv);
    }
}

/// With unique identifiers, the entry carrying one decides the map.
proof fn lemma_nm_found(s: Seq<(TypeNameId, Named)>, i: int, idv: TypeNameIdView)
    requires
        forall|p: int, q: int|
            0 <= p < q < s.len() ==> id_view((#[trigger] s[p]).0) != id_view((#[trigger] s[q]).0),
        0 <= i < s.len(),
        id_view(s[i].0) == idv,
    ensures
        nm_map_of(s).contains_key(idv),
        nm_map_of(s)[idv] == s[i].1.nv(),
    decreases s.len(),
{
    if i < s.len() - 1 {
        lemma_nm_found(s.drop_last(), i, idv);
    }
}

impl NameMap {
    /// Identifiers are never repeated among the entries.
    pub closed spec fn wf(&self) -> bool {
        forall|p: int, q: int|
            0 <= p < q < self.entries@.len() ==> id_view((#[trigger] self.entries@[p]).0)
                != id_view((#[trigger] self.entries@[q]).0)
    }

    pub fn new() -> (r: Self)
        ensures
            r.wf(),
            r@ == Map::<TypeNameIdView, NamedView>::empty(),
    {
        Self { entries: Vec::new() }
    }

    /// Look up the body stored for an identifier.
    pub fn get_named<'s>(&'s self, id: &TypeNameId) -> (r: Option<&'s Named>)
        requires
            self.wf(),
        ensures
            match r {
                Some(n) => self@.contains_key(id_view(*id)) && n.nv() == self@[id_view(*id)],
                None => !self@.contains_key(id_view(*id)),
            },
    {
        let n = self.entries.len();
        let mut i: usize = 0;
        while i < n
            invariant
                n == self.entries@.len(),
                i <= n,
                self.wf(),
                forall|j: int| 0 <= j < i ==> id_view((#[trigger] self.entries@[j]).0) != id_view(
                    *id,
                ),
            decreases n - i,
        {
            if id_eq(&self.entries[i].0, id) {
                proof {
                    lemma_nm_found(self.entries@, i as int, id_view(*id));
                }
                return Some(&self.entries[i].1);
            }
            i = i + 1;
        }
        proof {
            lemma_nm_not_found(self.entries@, id_view(*id));
        }
        None
    }

    /// Absorb a description.
    ///
    /// Every inline body in the tree is recursively absorbed and stored
    /// under its identifier; the returned description is the input with
    /// all bodies stripped, ready to hand to the decoder any number of
    /// times.  Storing a body under an identifier that already holds a
    /// different body fails with [`FeedError::Dups`].  A description
    /// that is already body-free is returned unchanged and changes
    /// nothing — so feeding the result of a feed a second time is a
    /// no-op.
    pub fn feed(&mut self, description: Description) -> (r: FeedResult<Description>)
        requires
            old(self).wf(),
        ensures
            final(self).wf(),
            nm_extends(old(self)@, final(self)@),
            match feed_desc(old(self)@, description.dv()) {
                Some((d2, m2)) => r matches Ok(out) && out.dv() == d2 && final(self)@ == m2,
                None => r matches Err(e) && e == FeedError::Dups,
            },
            match r {
                Ok(d2) => d2.dv() == elide(description.dv()) && body_free(d2.dv()),
                Err(e) => e == FeedError::Dups,
            },
            body_free(description.dv()) ==> r is Ok && *final(self) == *old(self),
            r is Ok ==> inline_bodies_bound(final(self)@, description.dv()),
        decreases description,
    {
        let ghost dvv = description.dv();
        proof {
            lemma_elide_body_free(dvv);
            lemma_body_free_elide(dvv);
            lemma_feed_desc_facts(old(self)@, dvv);
            lemma_feed_desc_body_free(old(self)@, dvv);
            lemma_feed_binds_bodies(old(self)@, dvv);
        }
        match description {
            Description::U64 => Ok(Description::U64),
            Description::U32 => Ok(Description::U32),
            Description::U16 => Ok(Description::U16),
            Description::U8 => Ok(Description::U8),
            Description::I64 => Ok(Description::I64),
            Description::I32 => Ok(Description::I32),
            Description::I16 => Ok(Description::I16),
            Description::I8 => Ok(Description::I8),
            Description::Unit => Ok(Description::Unit),
            Description::Phantom => Ok(Description::Phantom),
            Description::Bool => Ok(Description::Bool),
            Description::Str => Ok(Description::Str),
            Description::RawPtr => Ok(Description::RawPtr),
            Description::Opt(b) => match self.feed(*b) {
                Ok(d2) => Ok(Description::Opt(Box::new(d2))),
                Err(e) => Err(e),
            },
            Description::Res(a, b) => {
                let fa = match self.feed(*a) {
                    Ok(x) => x,
                    Err(e) => return Err(e),
                };
                proof {
                    lemma_feed_desc_body_free(self@, b.dv());
                }
                match self.feed(*b) {
                    Ok(fb) => Ok(Description::Res(Box::new(fa), Box::new(fb))),
                    Err(e) => Err(e),
                }
            },
            Description::Array(n, b) => match self.feed(*b) {
                Ok(d2) => Ok(Description::Array(n, Box::new(d2))),
                Err(e) => Err(e),
            },
            Description::Slice(b) => match self.feed(*b) {
                Ok(d2) => Ok(Description::Slice(Box::new(d2))),
                Err(e) => Err(e),
            },
            Description::Tuple(v) => match self.feed_desc_vec(v) {
                Ok(v2) => Ok(Description::Tuple(v2)),
                Err(e) => Err(e),
            },
            Description::ByName(id, None) => Ok(Description::ByName(id, None)),
            Description::ByName(id, Some(named)) => {
                let fed = match self.feed_named(named) {
                    Ok(x) => x,
                    Err(e) => return Err(e),
                };
                let stored_id: TypeNameId = (crate::strings::string_copy(id.0.as_str()), id.1);
                match self.insert_checked(stored_id, fed) {
                    Ok(()) => Ok(Description::ByName(id, None)),
                    Err(e) => Err(e),
                }
            },
        }
    }

    /// Absorb the body of a named type: every description inside it is
    /// fed, and the stripped body comes back for storage.
    pub fn feed_named(&mut self, named: Named) -> (r: FeedResult<Named>)
        requires
            old(self).wf(),
        ensures
            final(self).wf(),
            nm_extends(old(self)@, final(self)@),
            match feed_body(old(self)@, named.nv()) {
                Some((n2, m2)) => r matches Ok(out) && out.nv() == n2 && final(self)@ == m2,
                None => r matches Err(e) && e == FeedError::Dups,
            },
            match r {
                Ok(n2) => n2.nv() == elide_named(named.nv()),
                Err(e) => e == FeedError::Dups,
            },
        decreases named,
    {
        proof {
            lemma_feed_body_facts(old(self)@, named.nv());
        }
        match named {
            Named::Enum(vs) => match self.feed_variant_vec(vs) {
                Ok(vs2) => Ok(Named::Enum(vs2)),
                Err(e) => Err(e),
            },
            Named::Struct(s) => match self.feed_struct(s) {
                Ok(s2) => Ok(Named::Struct(s2)),
                Err(e) => Err(e),
            },
        }
    }

    /// Absorb a product shape: each field description is fed in order.
    pub fn feed_struct(&mut self, struct_: Struct) -> (r: FeedResult<Struct>)
        requires
            old(self).wf(),
        ensures
            final(self).wf(),
            nm_extends(old(self)@, final(self)@),
            match feed_shape(old(self)@, struct_.sv()) {
                Some((s2, m2)) => r matches Ok(out) && out.sv() == s2 && final(self)@ == m2,
                None => r matches Err(e) && e == FeedError::Dups,
            },
            match r {
                Ok(s2) => s2.sv() == elide_struct(struct_.sv()),
                Err(e) => e == FeedError::Dups,
            },
        decreases struct_,
    {
        proof {
            lemma_feed_shape_facts(old(self)@, struct_.sv());
        }
        match struct_ {
            Struct::Unit => Ok(Struct::Unit),
            Struct::Tuple(v) => match self.feed_desc_vec(v) {
                Ok(v2) => Ok(Struct::Tuple(v2)),
                Err(e) => Err(e),
            },
            Struct::Named(fs) => match self.feed_field_vec(fs) {
                Ok(fs2) => Ok(Struct::Named(fs2)),
                Err(e) => Err(e),
            },
        }
    }

    /// Feed each description of a vector, in order.
    #[verifier::loop_isolation(false)]
    fn feed_desc_vec(&mut self, v: Vec<Description>) -> (r: FeedResult<Vec<Description>>)
        requires
            old(self).wf(),
        ensures
            final(self).wf(),
            nm_extends(old(self)@, final(self)@),
            match feed_desc_seq(old(self)@, dv_seq(v@)) {
                Some((s2, m2)) => r matches Ok(v2) && dv_seq(v2@) == s2 && final(self)@ == m2,
                None => r matches Err(e) && e == FeedError::Dups,
            },
            match r {
                Ok(v2) => dv_seq(v2@) == elide_seq(dv_seq(v@)),
                Err(e) => e == FeedError::Dups,
            },
            body_free_seq(dv_seq(v@)) ==> r is Ok && *final(self) == *old(self),
        decreases v,
    {
        let ghost v0 = v;
        let ghost gv = v@;
        let ghost ds = dv_seq(gv);
        let ghost whole = feed_desc_seq(old(self)@, ds);
        proof {
            lemma_feed_desc_seq_facts(old(self)@, ds);
            lemma_feed_desc_seq_body_free(old(self)@, ds);
        }
        let mut rest = v;
        let mut out: Vec<Description> = Vec::new();
        let n = rest.len();
        proof {
            assert(ds.skip(0) =~= ds);
            if whole is Some {
                assert(Seq::<DescriptionView>::empty() + whole->Some_0.0 =~= whole->Some_0.0);
            }
        }
        let mut i: usize = 0;
        while i < n
            invariant
                old(self).wf(),
                self.wf(),
                nm_extends(old(self)@, self@),
                n == gv.len(),
                v0@ == gv,
                ds == dv_seq(gv),
                i <= n,
                rest@ == gv.skip(i as int),
                out@.len() == i,
                forall|j: int| 0 <= j < i ==> (#[trigger] out@[j]).dv() == elide(ds[j]),
                body_free_seq(ds) ==> *self == *old(self),
                match feed_desc_seq(self@, ds.skip(i as int)) {
                    Some((rest2, mf)) => whole == Some((dv_seq(out@) + rest2, mf)),
                    None => whole is None,
                },
            decreases n - i,
        {
            proof {
                lemma_dv_seq(gv);
                lemma_elide_seq_len(ds);
                if body_free_seq(ds) {
                    lemma_body_free_seq_index(ds, i as int);
                }
            }
            let x = rest.remove(0);
            proof {
                assert(x == gv[i as int]);
                assert(x.dv() == ds[i as int]);
                assert(ds.skip(i as int)[0] == ds[i as int]);
                assert(rest@ =~= gv.skip(i as int + 1));
                vstd::std_specs::vec::axiom_vec_index_decreases(v0, i as int);
            }
            let ghost out_pre = out@;
            let ghost acc_pre = dv_seq(out_pre);
            match self.feed(x) {
                Ok(d2) => {
                    out.push(d2);
                    proof {
                        lemma_dv_seq(out_pre);
                        lemma_dv_seq(out@);
                        assert forall|j: int| 0 <= j < out@.len() implies (#[trigger] dv_seq(
                            out@,
                        )[j]) == (acc_pre + seq![d2.dv()])[j] by {
                            assert(dv_seq(out@)[j] == out@[j].dv());
                            if j < out_pre.len() {
                                assert(out@[j] == out_pre[j]);
                                assert(acc_pre[j] == out_pre[j].dv());
                            } else {
                                assert(out@[j] == d2);
                            }
                        }
                        assert(dv_seq(out@) =~= acc_pre + seq![d2.dv()]);
                        assert(ds.skip(i as int).subrange(1, ds.skip(i as int).len() as int)
                            =~= ds.skip(i as int + 1));
                        let tail = feed_desc_seq(self@, ds.skip(i as int + 1));
                        if tail is Some {
                            assert(acc_pre + (seq![d2.dv()] + tail->Some_0.0) =~= dv_seq(out@)
                                + tail->Some_0.0);
                        }
                    }
                },
                Err(e) => {
                    proof {
                        if body_free_seq(ds) {
                            lemma_body_free_seq_index(ds, i as int);
                        }
                    }
                    return Err(e);
                },
            }
            i = i + 1;
        }
        proof {
            lemma_dv_seq(gv);
            assert(ds.skip(n as int) =~= Seq::<DescriptionView>::empty());
            if whole is Some {
                assert(dv_seq(out@) + Seq::<DescriptionView>::empty() =~= dv_seq(out@));
            }
        }
        proof {
            lemma_dv_seq(gv);
            lemma_dv_seq(out@);
            lemma_elide_seq_len(ds);
            assert forall|j: int| 0 <= j < out@.len() implies dv_seq(out@)[j] == elide_seq(
                ds,
            )[j] by {
                assert((#[trigger] out@[j]).dv() == elide(ds[j]));
            }
            assert(dv_seq(out@) =~= elide_seq(ds));
        }
        Ok(out)
    }

    /// Feed the description of each named field, in order.
    #[verifier::loop_isolation(false)]
    fn feed_field_vec(&mut self, v: Vec<(String, Description)>) -> (r: FeedResult<
        Vec<(String, Description)>,
    >)
        requires
            old(self).wf(),
        ensures
            final(self).wf(),
            nm_extends(old(self)@, final(self)@),
            match feed_field_seq(old(self)@, field_seq_view(v@)) {
                Some((s2, m2)) => r matches Ok(v2) && field_seq_view(v2@) == s2 && final(self)@
                    == m2,
                None => r matches Err(e) && e == FeedError::Dups,
            },
            match r {
                Ok(v2) => field_seq_view(v2@) == elide_field_seq(field_seq_view(v@)),
                Err(e) => e == FeedError::Dups,
            },
        decreases v,
    {
        let ghost v0 = v;
        let ghost gv = v@;
        let ghost fs = field_seq_view(gv);
        let ghost whole = feed_field_seq(old(self)@, fs);
        proof {
            lemma_feed_field_seq_facts(old(self)@, fs);
        }
        let mut rest = v;
        let mut out: Vec<(String, Description)> = Vec::new();
        let n = rest.len();
        proof {
            assert(fs.skip(0) =~= fs);
            if whole is Some {
                assert(Seq::<(Seq<char>, DescriptionView)>::empty() + whole->Some_0.0
                    =~= whole->Some_0.0);
            }
        }
        let mut i: usize = 0;
        while i < n
            invariant
                old(self).wf(),
                self.wf(),
                nm_extends(old(self)@, self@),
                n == gv.len(),
                v0@ == gv,
                fs == field_seq_view(gv),
                i <= n,
                rest@ == gv.skip(i as int),
                out@.len() == i,
                forall|j: int|
                    0 <= j < i ==> (#[trigger] out@[j]).0@ == fs[j].0 && out@[j].1.dv() == elide(
                        fs[j].1,
                    ),
                match feed_field_seq(self@, fs.skip(i as int)) {
                    Some((rest2, mf)) => whole == Some((field_seq_view(out@) + rest2, mf)),
                    None => whole is None,
                },
            decreases n - i,
        {
            proof {
                lemma_field_seq_view(gv);
            }
            let pair = rest.remove(0);
            proof {
                assert(pair == gv[i as int]);
                assert(fs[i as int] == (pair.0@, pair.1.dv()));
                assert(fs.skip(i as int)[0] == fs[i as int]);
                assert(rest@ =~= gv.skip(i as int + 1));
                vstd::std_specs::vec::axiom_vec_index_decreases(v0, i as int);
            }
            let (name, d) = pair;
            let ghost out_pre = out@;
            let ghost acc_pre = field_seq_view(out_pre);
            match self.feed(d) {
                Ok(d2) => {
                    let ghost d2v = d2.dv();
                    out.push((name, d2));
                    proof {
                        lemma_field_seq_view(gv);
                        assert(out@[i as int].0@ == fs[i as int].0);
                        assert(out@[i as int].1.dv() == elide(fs[i as int].1));
                        lemma_field_seq_view(out_pre);
                        lemma_field_seq_view(out@);
                        assert forall|j: int| 0 <= j < out@.len() implies (#[trigger] field_seq_view(
                            out@,
                        )[j]) == (acc_pre + seq![(fs[i as int].0, d2v)])[j] by {
                            assert(field_seq_view(out@)[j] == (out@[j].0@, out@[j].1.dv()));
                            if j < out_pre.len() {
                                assert(out@[j] == out_pre[j]);
                                assert(acc_pre[j] == (out_pre[j].0@, out_pre[j].1.dv()));
                            } else {
                                assert(out@[j] == (name, d2));
                            }
                        }
                        assert(field_seq_view(out@) =~= acc_pre + seq![(fs[i as int].0, d2v)]);
                        assert(fs.skip(i as int).subrange(1, fs.skip(i as int).len() as int)
                            =~= fs.skip(i as int + 1));
                        let tail = feed_field_seq(self@, fs.skip(i as int + 1));
                        if tail is Some {
                            assert(acc_pre + (seq![(fs[i as int].0, d2v)] + tail->Some_0.0)
                                =~= field_seq_view(out@) + tail->Some_0.0);
                        }
                    }
                },
                Err(e) => {
                    return Err(e);
                },
            }
            i = i + 1;
        }
        proof {
            lemma_field_seq_view(gv);
            assert(fs.skip(n as int) =~= Seq::<(Seq<char>, DescriptionView)>::empty());
            if whole is Some {
                assert(field_seq_view(out@) + Seq::<(Seq<char>, DescriptionView)>::empty()
                    =~= field_seq_view(out@));
            }
        }
        proof {
            lemma_field_seq_view(gv);
            lemma_field_seq_view(out@);
            lemma_elide_field_seq_len(fs);
            assert forall|j: int| 0 <= j < out@.len() implies field_seq_view(out@)[j]
                == elide_field_seq(fs)[j] by {
                assert((#[trigger] out@[j]).0@ == fs[j].0 && out@[j].1.dv() == elide(fs[j].1));
            }
            assert(field_seq_view(out@) =~= elide_field_seq(fs));
        }
        Ok(out)
    }

    /// Feed the body of each enum variant, in order.
    #[verifier::loop_isolation(false)]
    fn feed_variant_vec(&mut self, v: Vec<(String, Struct)>) -> (r: FeedResult<
        Vec<(String, Struct)>,
    >)
        requires
            old(self).wf(),
        ensures
            final(self).wf(),
            nm_extends(old(self)@, final(self)@),
            match feed_variant_seq(old(self)@, variant_seq_view(v@)) {
                Some((s2, m2)) => r matches Ok(v2) && variant_seq_view(v2@) == s2 && final(self)@
                    == m2,
                None => r matches Err(e) && e == FeedError::Dups,
            },
            match r {
                Ok(v2) => variant_seq_view(v2@) == elide_variant_seq(variant_seq_view(v@)),
                Err(e) => e == FeedError::Dups,
            },
        decreases v,
    {
        let ghost v0 = v;
        let ghost gv = v@;
        let ghost vs = variant_seq_view(gv);
        let ghost whole = feed_variant_seq(old(self)@, vs);
        proof {
            lemma_feed_variant_seq_facts(old(self)@, vs);
        }
        let mut rest = v;
        let mut out: Vec<(String, Struct)> = Vec::new();
        let n = rest.len();
        proof {
            assert(vs.skip(0) =~= vs);
            if whole is Some {
                assert(Seq::<(Seq<char>, StructView)>::empty() + whole->Some_0.0
                    =~= whole->Some_0.0);
            }
        }
        let mut i: usize = 0;
        while i < n
            invariant
                old(self).wf(),
                self.wf(),
                nm_extends(old(self)@, self@),
                n == gv.len(),
                v0@ == gv,
                vs == variant_seq_view(gv),
                i <= n,
                rest@ == gv.skip(i as int),
                out@.len() == i,
                forall|j: int|
                    0 <= j < i ==> (#[trigger] out@[j]).0@ == vs[j].0 && out@[j].1.sv()
                        == elide_struct(vs[j].1),
                match feed_variant_seq(self@, vs.skip(i as int)) {
                    Some((rest2, mf)) => whole == Some((variant_seq_view(out@) + rest2, mf)),
                    None => whole is None,
                },
            decreases n - i,
        {
            proof {
                lemma_variant_seq_view(gv);
            }
            let pair = rest.remove(0);
            proof {
                assert(pair == gv[i as int]);
                assert(vs[i as int] == (pair.0@, pair.1.sv()));
                assert(vs.skip(i as int)[0] == vs[i as int]);
                assert(rest@ =~= gv.skip(i as int + 1));
                vstd::std_specs::vec::axiom_vec_index_decreases(v0, i as int);
            }
            let (name, s) = pair;
            let ghost out_pre = out@;
            let ghost acc_pre = variant_seq_view(out_pre);
            match self.feed_struct(s) {
                Ok(s2) => {
                    let ghost s2v = s2.sv();
                    out.push((name, s2));
                    proof {
                        lemma_variant_seq_view(out_pre);
                        lemma_variant_seq_view(out@);
                        assert forall|j: int| 0 <= j < out@.len() implies (
                        #[trigger] variant_seq_view(out@)[j]) == (acc_pre + seq![
                            (vs[i as int].0, s2v),
                        ])[j] by {
                            assert(variant_seq_view(out@)[j] == (out@[j].0@, out@[j].1.sv()));
                            if j < out_pre.len() {
                                assert(out@[j] == out_pre[j]);
                                assert(acc_pre[j] == (out_pre[j].0@, out_pre[j].1.sv()));
                            } else {
                                assert(out@[j] == (name, s2));
                            }
                        }
                        assert(variant_seq_view(out@) =~= acc_pre + seq![(vs[i as int].0, s2v)]);
                        assert(vs.skip(i as int).subrange(1, vs.skip(i as int).len() as int)
                            =~= vs.skip(i as int + 1));
                        let tail = feed_variant_seq(self@, vs.skip(i as int + 1));
                        if tail is Some {
                            assert(acc_pre + (seq![(vs[i as int].0, s2v)] + tail->Some_0.0)
                                =~= variant_seq_view(out@) + tail->Some_0.0);
                        }
                    }
                },
                Err(e) => {
                    return Err(e);
                },
            }
            i = i + 1;
        }
        proof {
            lemma_variant_seq_view(gv);
            assert(vs.skip(n as int) =~= Seq::<(Seq<char>, StructView)>::empty());
            if whole is Some {
                assert(variant_seq_view(out@) + Seq::<(Seq<char>, StructView)>::empty()
                    =~= variant_seq_view(out@));
            }
        }
        proof {
            lemma_variant_seq_view(gv);
            lemma_variant_seq_view(out@);
            lemma_elide_variant_seq_len(vs);
            assert forall|j: int| 0 <= j < out@.len() implies variant_seq_view(out@)[j]
                == elide_variant_seq(vs)[j] by {
                assert((#[trigger] out@[j]).0@ == vs[j].0 && out@[j].1.sv() == elide_struct(
                    vs[j].1,
                ));
            }
            assert(variant_seq_view(out@) =~= elide_variant_seq(vs));
        }
        Ok(out)
    }

    /// Store a body under an identifier; an existing entry must agree.
    fn insert_checked(&mut self, id: TypeNameId, body: Named) -> (r: Result<(), FeedError>)
        requires
            old(self).wf(),
        ensures
            final(self).wf(),
            r is Ok <==> (!old(self)@.contains_key(id_view(id)) || old(self)@[id_view(id)]
                == body.nv()),
            r is Ok ==> final(self)@ == old(self)@.insert(id_view(id), body.nv()),
            r is Ok ==> nm_extends(old(self)@, final(self)@),
            r is Err ==> *final(self) == *old(self),
    {
        let n = self.entries.len();
        let mut i: usize = 0;
        while i < n
            invariant
                n == self.entries@.len(),
                i <= n,
                self.wf(),
                forall|j: int| 0 <= j < i ==> id_view((#[trigger] self.entries@[j]).0) != id_view(
                    id,
                ),
            decreases n - i,
        {
            if id_eq(&self.entries[i].0, &id) {
                proof {
                    lemma_nm_found(self.entries@, i as int, id_view(id));
                }
                if named_eq(&self.entries[i].1, &body) {
                    proof {
                        assert(self@.insert(id_view(id), body.nv()) =~= self@);
                    }
                    return Ok(());
                } else {
                    return Err(FeedError::Dups);
                }
            }
            i = i + 1;
        }
        proof {
            lemma_nm_not_found(self.entries@, id_view(id));
        }
        self.entries.push((id, body));
        proof {
            assert(self.entries@.drop_last() =~= old(self).entries@);
        }
        Ok(())
    }
}

/// One visitor callback, as a value: the decoder's output is a sequence
/// of these, mirroring the wire byte order.
pub enum Event {
    U8(u8),
    U16(u16),
    U32(u32),
    U64(u64),
    I8(i32),
    I16(i32),
    I32(i32),
    I64(i64),
    Bool(bool),
    Str(Seq<char>),
    Unit,
    Phantom,
    BeginEnum(TypeNameIdView, Seq<char>),
    EndEnum(TypeNameIdView),
    OptionNone,
    OptionSome,
    OptionEnd,
    ResultOk,
    ResultErr,
    ResultEnd,
    StructUnit(Option<TypeNameIdView>),
    BeginStructNamed(Option<TypeNameIdView>),
    BeginNamedField(u16, Seq<char>),
    EndNamedField,
    EndStructNamed,
    BeginStructTuple(Option<TypeNameIdView>),
    BeginTupleField(u16),
    EndTupleField,
    EndStructTuple,
    BeginTuple(nat),
    BeginTupleItem(u16),
    EndTupleItem,
    EndTuple,
    BeginArray(nat),
    BeginArrayItem(u16),
    EndArrayItem,
    EndArray,
    BeginSlice(nat),
    BeginSliceItem(u16),
    EndSliceItem,
    EndSlice,
}

/// The view of an optional identifier reference.
pub open spec fn oid_view(o: Option<&TypeNameId>) -> Option<TypeNameIdView> {
    match o {
        Some(id) => Some(id_view(*id)),
        None => None,
    }
}

/// Item indices are reported in sixteen bits, wrapping around.
pub open spec fn u16_idx(i: nat) -> u16 {
    (i % 0x10000) as u16
}

/// A visitor: the decoder reports everything it reads through these
/// callbacks, in wire order.  A visitor's whole observable behaviour is
/// the event sequence `events`; every callback appends exactly its own
/// event.  Visitors never touch the byte stream themselves.
pub trait Callbacks: Sized {
    /// The visitor's configuration: whatever of its state is not the
    /// event record.  Every callback leaves it untouched, so anything a
    /// caller knows about it survives a whole decode.
    type Config;

    /// Everything this visitor has been told so far.
    spec fn events(&self) -> Seq<Event>;

    /// The visitor's current configuration.
    spec fn config(&self) -> Self::Config;

    fn handle_u8(&mut self, v: u8)
        ensures
            final(self).events() == old(self).events().push(Event::U8(v)),
            final(self).config() == old(self).config(),
    ;

    fn handle_u16(&mut self, v: u16)
        ensures
            final(self).events() == old(self).events().push(Event::U16(v)),
            final(self).config() == old(self).config(),
    ;

    fn handle_u32(&mut self, v: u32)
        ensures
            final(self).events() == old(self).events().push(Event::U32(v)),
            final(self).config() == old(self).config(),
    ;

    fn handle_u64(&mut self, v: u64)
        ensures
            final(self).events() == old(self).events().push(Event::U64(v)),
            final(self).config() == old(self).config(),
    ;

    fn handle_i8(&mut self, v: i32)
        ensures
            final(self).events() == old(self).events().push(Event::I8(v)),
            final(self).config() == old(self).config(),
    ;

    fn handle_i16(&mut self, v: i32)
        ensures
            final(self).events() == old(self).events().push(Event::I16(v)),
            final(self).config() == old(self).config(),
    ;

    fn handle_i32(&mut self, v: i32)
        ensures
            final(self).events() == old(self).events().push(Event::I32(v)),
            final(self).config() == old(self).config(),
    ;

    fn handle_i64(&mut self, v: i64)
        ensures
            final(self).events() == old(self).events().push(Event::I64(v)),
            final(self).config() == old(self).config(),
    ;

    fn handle_bool(&mut self, v: bool)
        ensures
            final(self).events() == old(self).events().push(Event::Bool(v)),
            final(self).config() == old(self).config(),
    ;

    fn handle_string(&mut self, v: &str)
        ensures
            final(self).events() == old(self).events().push(Event::Str(v@)),
            final(self).config() == old(self).config(),
    ;

    fn handle_unit(&mut self)
        ensures
            final(self).events() == old(self).events().push(Event::Unit),
            final(self).config() == old(self).config(),
    ;

    fn handle_phantom(&mut self)
        ensures
            final(self).events() == old(self).events().push(Event::Phantom),
            final(self).config() == old(self).config(),
    ;

    fn begin_enum(&mut self, typename_id: &TypeNameId, option_name: &String)
        ensures
            final(self).events() == old(self).events().push(
                Event::BeginEnum(id_view(*typename_id), option_name@),
            ),
            final(self).config() == old(self).config(),
    ;

    fn end_enum(&mut self, typename_id: &TypeNameId)
        ensures
            final(self).events() == old(self).events().push(Event::EndEnum(id_view(*typename_id))),
            final(self).config() == old(self).config(),
    ;

    fn option_none(&mut self)
        ensures
            final(self).events() == old(self).events().push(Event::OptionNone),
            final(self).config() == old(self).config(),
    ;

    fn option_some(&mut self)
        ensures
            final(self).events() == old(self).events().push(Event::OptionSome),
            final(self).config() == old(self).config(),
    ;

    fn option_end(&mut self)
        ensures
            final(self).events() == old(self).events().push(Event::OptionEnd),
            final(self).config() == old(self).config(),
    ;

    fn result_ok(&mut self)
        ensures
            final(self).events() == old(self).events().push(Event::ResultOk),
            final(self).config() == old(self).config(),
    ;

    fn result_err(&mut self)
        ensures
            final(self).events() == old(self).events().push(Event::ResultErr),
            final(self).config() == old(self).config(),
    ;

    fn result_end(&mut self)
        ensures
            final(self).events() == old(self).events().push(Event::ResultEnd),
            final(self).config() == old(self).config(),
    ;

    fn struct_unit(&mut self, typename_id: Option<&TypeNameId>)
        ensures
            final(self).events() == old(self).events().push(Event::StructUnit(oid_view(typename_id))),
            final(self).config() == old(self).config(),
    ;

    fn begin_struct_named(&mut self, typename_id: Option<&TypeNameId>)
        ensures
            final(self).events() == old(self).events().push(
                Event::BeginStructNamed(oid_view(typename_id)),
            ),
            final(self).config() == old(self).config(),
    ;

    fn begin_named_field(&mut self, field_idx: u16, field_name: &String)
        ensures
            final(self).events() == old(self).events().push(
                Event::BeginNamedField(field_idx, field_name@),
            ),
            final(self).config() == old(self).config(),
    ;

    fn end_named_field(&mut self)
        ensures
            final(self).events() == old(self).events().push(Event::EndNamedField),
            final(self).config() == old(self).config(),
    ;

    fn end_struct_named(&mut self)
        ensures
            final(self).events() == old(self).events().push(Event::EndStructNamed),
            final(self).config() == old(self).config(),
    ;

    fn begin_struct_tuple(&mut self, typename_id: Option<&TypeNameId>)
        ensures
            final(self).events() == old(self).events().push(
                Event::BeginStructTuple(oid_view(typename_id)),
            ),
            final(self).config() == old(self).config(),
    ;

    fn begin_tuple_field(&mut self, field_idx: u16)
        ensures
            final(self).events() == old(self).events().push(Event::BeginTupleField(field_idx)),
            final(self).config() == old(self).config(),
    ;

    fn end_tuple_field(&mut self)
        ensures
            final(self).events() == old(self).events().push(Event::EndTupleField),
            final(self).config() == old(self).config(),
    ;

    fn end_struct_tuple(&mut self)
        ensures
            final(self).events() == old(self).events().push(Event::EndStructTuple),
            final(self).config() == old(self).config(),
    ;

    fn begin_tuple(&mut self, size: usize)
        ensures
            final(self).events() == old(self).events().push(Event::BeginTuple(size as nat)),
            final(self).config() == old(self).config(),
    ;

    fn begin_tuple_item(&mut self, field_idx: u16)
        ensures
            final(self).events() == old(self).events().push(Event::BeginTupleItem(field_idx)),
            final(self).config() == old(self).config(),
    ;

    fn end_tuple_item(&mut self)
        ensures
            final(self).events() == old(self).events().push(Event::EndTupleItem),
            final(self).config() == old(self).config(),
    ;

    fn end_tuple(&mut self)
        ensures
            final(self).events() == old(self).events().push(Event::EndTuple),
            final(self).config() == old(self).config(),
    ;

    fn begin_array(&mut self, size: usize)
        ensures
            final(self).events() == old(self).events().push(Event::BeginArray(size as nat)),
            final(self).config() == old(self).config(),
    ;

    fn begin_array_item(&mut self, field_idx: u16)
        ensures
            final(self).events() == old(self).events().push(Event::BeginArrayItem(field_idx)),
            final(self).config() == old(self).config(),
    ;

    fn end_array_item(&mut self)
        ensures
            final(self).events() == old(self).events().push(Event::EndArrayItem),
            final(self).config() == old(self).config(),
    ;

    fn end_array(&mut self)
        ensures
            final(self).events() == old(self).events().push(Event::EndArray),
            final(self).config() == old(self).config(),
    ;

    fn begin_slice(&mut self, size: u64)
        ensures
            final(self).events() == old(self).events().push(Event::BeginSlice(size as nat)),
            final(self).config() == old(self).config(),
    ;

    fn begin_slice_item(&mut self, field_idx: u16)
        ensures
            final(self).events() == old(self).events().push(Event::BeginSliceItem(field_idx)),
            final(self).config() == old(self).config(),
    ;

    fn end_slice_item(&mut self)
        ensures
            final(self).events() == old(self).events().push(Event::EndSliceItem),
            final(self).config() == old(self).config(),
    ;

    fn end_slice(&mut self)
        ensures
            final(self).events() == old(self).events().push(Event::EndSlice),
            final(self).config() == old(self).config(),
    ;
}

/// Why a decode failed.
#[derive(Debug)]
pub enum Error {
    /// A named reference with no body in the registry.
    MissingType(TypeNameId),
    /// String bytes that are not valid UTF-8.
    UTF8Error,
    /// The byte stream ran dry: `(remaining, required)`.
    GetError((usize, usize)),
    /// An enum tag at or past the variant count.
    InvalidIndex(usize, usize),
    /// An option marker other than 0 or 1.
    InvalidSome(u8),
    /// A result marker other than 0 or 1.
    InvalidResult(u8),
    /// More named-reference hops than the decoder's (practically
    /// unreachable) walking budget.
    RecursionLimit,
}

/// How many named-reference hops the decoder will follow.  The walk is
/// proved terminating against this budget; it lies far beyond any call
/// stack, so in practice a decode is bounded by the stack alone, and
/// only a degenerate self-referential description could ever run the
/// budget down.
pub const DECODE_DEPTH_LIMIT: u64 = 0xffff_ffff_ffff_ffff;

/// The mathematical value of a decode failure.
pub enum ErrorView {
    MissingType(TypeNameIdView),
    UTF8Error,
    GetError((nat, nat)),
    InvalidIndex(nat, nat),
    InvalidSome(u8),
    InvalidResult(u8),
    RecursionLimit,
}

/// The mathematical value of a decode error.
pub open spec fn err_view(e: Error) -> ErrorView {
    match e {
        Error::MissingType(id) => ErrorView::MissingType(id_view(id)),
        Error::UTF8Error => ErrorView::UTF8Error,
        Error::GetError((rem, req)) => ErrorView::GetError((rem as nat, req as nat)),
        Error::InvalidIndex(idx, len) => ErrorView::InvalidIndex(idx as nat, len as nat),
        Error::InvalidSome(b) => ErrorView::InvalidSome(b),
        Error::InvalidResult(b) => ErrorView::InvalidResult(b),
        Error::RecursionLimit => ErrorView::RecursionLimit,
    }
}

/// Componentwise identifier comparison.
pub fn id_eq(a: &TypeNameId, b: &TypeNameId) -> (r: bool)
    ensures
        r == (id_view(*a) == id_view(*b)),
{
    a.1 == b.1 && str_eq(a.0.as_str(), b.0.as_str())
}

/// Deep structural comparison of descriptions, deciding equality of
/// their mathematical values.
pub fn desc_eq(a: &Description, b: &Description) -> (r: bool)
    ensures
        r == (a.dv() == b.dv()),
    decreases *a,
{
    match (a, b) {
        (Description::U64, Description::U64) => true,
        (Description::U32, Description::U32) => true,
        (Description::U16, Description::U16) => true,
        (Description::U8, Description::U8) => true,
        (Description::I64, Description::I64) => true,
        (Description::I32, Description::I32) => true,
        (Description::I16, Description::I16) => true,
        (Description::I8, Description::I8) => true,
        (Description::Unit, Description::Unit) => true,
        (Description::Phantom, Description::Phantom) => true,
        (Description::Bool, Description::Bool) => true,
        (Description::Str, Description::Str) => true,
        (Description::RawPtr, Description::RawPtr) => true,
        (Description::Opt(x), Description::Opt(y)) => desc_eq(x, y),
        (Description::Res(x1, x2), Description::Res(y1, y2)) => desc_eq(x1, y1) && desc_eq(
            x2,
            y2,
        ),
        (Description::Array(n, x), Description::Array(m, y)) => n == m && desc_eq(x, y),
        (Description::Slice(x), Description::Slice(y)) => desc_eq(x, y),
        (Description::Tuple(v), Description::Tuple(w)) => desc_vec_eq(v, w),
        (Description::ByName(i1, None), Description::ByName(i2, None)) => id_eq(i1, i2),
        (Description::ByName(i1, Some(n1)), Description::ByName(i2, Some(n2))) => id_eq(i1, i2)
            && named_eq(n1, n2),
        _ => false,
    }
}

/// Elementwise [`desc_eq`] over description vectors.
fn desc_vec_eq(v: &Vec<Description>, w: &Vec<Description>) -> (r: bool)
    ensures
        r == (dv_seq(v@) == dv_seq(w@)),
    decreases v@,
{
    proof {
        lemma_dv_seq(v@);
        lemma_dv_seq(w@);
    }
    if v.len() != w.len() {
        return false;
    }
    let n = v.len();
    let mut i: usize = 0;
    while i < n
        invariant
            n == v@.len(),
            n == w@.len(),
            i <= n,
            forall|j: int| 0 <= j < i ==> (#[trigger] v@[j]).dv() == w@[j].dv(),
        decreases n - i,
    {
        if !desc_eq(&v[i], &w[i]) {
            proof {
                lemma_dv_seq(v@);
                lemma_dv_seq(w@);
            }
            return false;
        }
        i = i + 1;
    }
    proof {
        lemma_dv_seq(v@);
        lemma_dv_seq(w@);
        assert forall|j: int| 0 <= j < v@.len() implies dv_seq(v@)[j] == dv_seq(w@)[j] by {
            assert((#[trigger] v@[j]).dv() == w@[j].dv());
        }
        assert(dv_seq(v@) =~= dv_seq(w@));
    }
    true
}

/// Deep structural comparison of bodies.
pub fn named_eq(a: &Named, b: &Named) -> (r: bool)
    ensures
        r == (a.nv() == b.nv()),
    decreases *a,
{
    match (a, b) {
        (Named::Enum(v), Named::Enum(w)) => variant_vec_eq(v, w),
        (Named::Struct(x), Named::Struct(y)) => struct_eq(x, y),
        _ => false,
    }
}

/// Elementwise comparison of enum variant lists.
fn variant_vec_eq(v: &Vec<(String, Struct)>, w: &Vec<(String, Struct)>) -> (r: bool)
    ensures
        r == (variant_seq_view(v@) == variant_seq_view(w@)),
    decreases v@,
{
    proof {
        lemma_variant_seq_view(v@);
        lemma_variant_seq_view(w@);
    }
    if v.len() != w.len() {
        return false;
    }
    let n = v.len();
    let mut i: usize = 0;
    while i < n
        invariant
            n == v@.len(),
            n == w@.len(),
            i <= n,
            forall|j: int|
                0 <= j < i ==> (#[trigger] v@[j]).0@ == w@[j].0@ && v@[j].1.sv() == w@[j].1.sv(),
        decreases n - i,
    {
        let name_same = str_eq(v[i].0.as_str(), w[i].0.as_str());
        if !name_same || !struct_eq(&v[i].1, &w[i].1) {
            proof {
                lemma_variant_seq_view(v@);
                lemma_variant_seq_view(w@);
            }
            return false;
        }
        i = i + 1;
    }
    proof {
        lemma_variant_seq_view(v@);
        lemma_variant_seq_view(w@);
        assert forall|j: int|
            0 <= j < v@.len() implies variant_seq_view(v@)[j] == variant_seq_view(w@)[j] by {
            assert((#[trigger] v@[j]).0@ == w@[j].0@ && v@[j].1.sv() == w@[j].1.sv());
        }
        assert(variant_seq_view(v@) =~= variant_seq_view(w@));
    }
    true
}

/// Deep structural comparison of product shapes.
pub fn struct_eq(a: &Struct, b: &Struct) -> (r: bool)
    ensures
        r == (a.sv() == b.sv()),
    decreases *a,
{
    match (a, b) {
        (Struct::Unit, Struct::Unit) => true,
        (Struct::Tuple(v), Struct::Tuple(w)) => desc_vec_eq(v, w),
        (Struct::Named(v), Struct::Named(w)) => field_vec_eq(v, w),
        _ => false,
    }
}

/// Elementwise comparison of named field lists.
fn field_vec_eq(v: &Vec<(String, Description)>, w: &Vec<(String, Description)>) -> (r: bool)
    ensures
        r == (field_seq_view(v@) == field_seq_view(w@)),
    decreases v@,
{
    proof {
        lemma_field_seq_view(v@);
        lemma_field_seq_view(w@);
    }
    if v.len() != w.len() {
        return false;
    }
    let n = v.len();
    let mut i: usize = 0;
    while i < n
        invariant
            n == v@.len(),
            n == w@.len(),
            i <= n,
            forall|j: int|
                0 <= j < i ==> (#[trigger] v@[j]).0@ == w@[j].0@ && v@[j].1.dv() == w@[j].1.dv(),
        decreases n - i,
    {
        let name_same = str_eq(v[i].0.as_str(), w[i].0.as_str());
        if !name_same || !desc_eq(&v[i].1, &w[i].1) {
            proof {
                lemma_field_seq_view(v@);
                lemma_field_seq_view(w@);
            }
            return false;
        }
        i = i + 1;
    }
    proof {
        lemma_field_seq_view(v@);
        lemma_field_seq_view(w@);
        assert forall|j: int|
            0 <= j < v@.len() implies field_seq_view(v@)[j] == field_seq_view(w@)[j] by {
            assert((#[trigger] v@[j]).0@ == w@[j].0@ && v@[j].1.dv() == w@[j].1.dv());
        }
        assert(field_seq_view(v@) =~= field_seq_view(w@));
    }
    true
}

/// What decoding a string at position `p` yields: its characters and the
/// position after it, or the exact failure — the header read that ran
/// dry, the payload that ran dry, or bytes that are not UTF-8.
pub open spec fn dec_str(bytes: Seq<u8>, p: nat) -> Result<(Seq<char>, nat), ErrorView> {
    if p + 1 > bytes.len() {
        Err(ErrorView::GetError(((bytes.len() - p) as nat, 1)))
    } else {
        let f0 = bytes[p as int];
        let tag = f0 % 4;
        if tag != 0 && p + 2 > bytes.len() {
            Err(ErrorView::GetError(((bytes.len() - p - 1) as nat, 1)))
        } else if tag >= 2 && p + 4 > bytes.len() {
            Err(ErrorView::GetError(((bytes.len() - p - 2) as nat, 2)))
        } else if tag == 3 && p + 8 > bytes.len() {
            Err(ErrorView::GetError(((bytes.len() - p - 4) as nat, 4)))
        } else {
            let hl: nat = if tag == 0 {
                1
            } else if tag == 1 {
                2
            } else if tag == 2 {
                4
            } else {
                8
            };
            let strlen: nat = if tag == 0 {
                (f0 / 4) as nat
            } else if tag == 1 {
                ((f0 / 4) + 64 * bytes[p as int + 1]) as nat
            } else if tag == 2 {
                ((f0 / 4) + 64 * bytes[p as int + 1] + 16384 * crate::wire::le_val(
                    bytes.subrange(p as int + 2, p as int + 4),
                )) as nat
            } else {
                ((f0 / 4) + 64 * bytes[p as int + 1] + 16384 * crate::wire::le_val(
                    bytes.subrange(p as int + 2, p as int + 4),
                ) + 0x4000_0000 * crate::wire::le_val(
                    bytes.subrange(p as int + 4, p as int + 8),
                )) as nat
            };
            let q = p + hl;
            if q + strlen > bytes.len() {
                Err(
                    ErrorView::GetError(
                        (
                            (bytes.len() - q) as nat,
                            if strlen > usize::MAX as nat {
                                usize::MAX as nat
                            } else {
                                strlen
                            },
                        ),
                    ),
                )
            } else {
                let sb = bytes.subrange(q as int, (q + strlen) as int);
                if vstd::utf8::valid_utf8(sb) {
                    Ok((vstd::utf8::decode_utf8(sb), q + strlen))
                } else {
                    Err(ErrorView::UTF8Error)
                }
            }
        }
    }
}

/// The decoder, as mathematics: walking description `d` against `bytes`
/// from position `p` with the registry `m` either fails with the exact
/// error the walk meets first, or consumes the bytes up to a new
/// position and emits exactly these events.
pub open spec fn dec_desc(
    d: DescriptionView,
    m: Map<TypeNameIdView, NamedView>,
    bytes: Seq<u8>,
    p: nat,
    depth: nat,
) -> Result<(Seq<Event>, nat), ErrorView>
    decreases depth, d, 0int,
{
    match d {
        DescriptionView::U8 => if p + 1 <= bytes.len() {
            Ok((seq![Event::U8(bytes[p as int])], p + 1))
        } else {
            Err(ErrorView::GetError(((bytes.len() - p) as nat, 1)))
        },
        DescriptionView::U16 => if p + 2 <= bytes.len() {
            Ok(
                (
                    seq![
                        Event::U16(
                            crate::wire::le_val(bytes.subrange(p as int, p as int + 2)) as u16,
                        ),
                    ],
                    p + 2,
                ),
            )
        } else {
            Err(ErrorView::GetError(((bytes.len() - p) as nat, 2)))
        },
        DescriptionView::U32 => if p + 4 <= bytes.len() {
            Ok(
                (
                    seq![
                        Event::U32(
                            crate::wire::le_val(bytes.subrange(p as int, p as int + 4)) as u32,
                        ),
                    ],
                    p + 4,
                ),
            )
        } else {
            Err(ErrorView::GetError(((bytes.len() - p) as nat, 4)))
        },
        DescriptionView::U64 => if p + 8 <= bytes.len() {
            Ok(
                (
                    seq![
                        Event::U64(
                            crate::wire::le_val(bytes.subrange(p as int, p as int + 8)) as u64,
                        ),
                    ],
                    p + 8,
                ),
            )
        } else {
            Err(ErrorView::GetError(((bytes.len() - p) as nat, 8)))
        },
        DescriptionView::I8 => if p + 1 <= bytes.len() {
            Ok((seq![Event::I8(crate::wire_signed::i8_of_u8(bytes[p as int]) as i32)], p + 1))
        } else {
            Err(ErrorView::GetError(((bytes.len() - p) as nat, 1)))
        },
        DescriptionView::I16 => if p + 2 <= bytes.len() {
            Ok(
                (
                    seq![
                        Event::I16(
                            crate::wire_signed::i16_of_u16(
                                crate::wire::le_val(bytes.subrange(p as int, p as int + 2)) as u16,
                            ) as i32,
                        ),
                    ],
                    p + 2,
                ),
            )
        } else {
            Err(ErrorView::GetError(((bytes.len() - p) as nat, 2)))
        },
        DescriptionView::I32 => if p + 4 <= bytes.len() {
            Ok(
                (
                    seq![
                        Event::I32(
                            crate::wire_signed::i32_of_u32(
                                crate::wire::le_val(bytes.subrange(p as int, p as int + 4)) as u32,
                            ),
                        ),
                    ],
                    p + 4,
                ),
            )
        } else {
            Err(ErrorView::GetError(((bytes.len() - p) as nat, 4)))
        },
        DescriptionView::I64 => if p + 8 <= bytes.len() {
            Ok(
                (
                    seq![
                        Event::I64(
                            crate::wire_signed::i64_of_u64(
                                crate::wire::le_val(bytes.subrange(p as int, p as int + 8)) as u64,
                            ),
                        ),
                    ],
                    p + 8,
                ),
            )
        } else {
            Err(ErrorView::GetError(((bytes.len() - p) as nat, 8)))
        },
        DescriptionView::Bool => if p + 1 <= bytes.len() {
            Ok((seq![Event::Bool(bytes[p as int] != 0)], p + 1))
        } else {
            Err(ErrorView::GetError(((bytes.len() - p) as nat, 1)))
        },
        DescriptionView::Unit => Ok((seq![Event::Unit], p)),
        DescriptionView::Phantom => Ok((seq![Event::Phantom], p)),
        DescriptionView::RawPtr => if p + 8 <= bytes.len() {
            Ok(
                (
                    seq![
                        Event::U64(
                            crate::wire::le_val(bytes.subrange(p as int, p as int + 8)) as u64,
                        ),
                    ],
                    p + 8,
                ),
            )
        } else {
            Err(ErrorView::GetError(((bytes.len() - p) as nat, 8)))
        },
        DescriptionView::Str => match dec_str(bytes, p) {
            Ok((chars, p2)) => Ok((seq![Event::Str(chars)], p2)),
            Err(ev) => Err(ev),
        },
        DescriptionView::Opt(b) => if p + 1 <= bytes.len() {
            let f0 = bytes[p as int];
            if f0 == 0 {
                Ok((seq![Event::OptionNone], p + 1))
            } else if f0 == 1 {
                match dec_desc(*b, m, bytes, p + 1, depth) {
                    Ok((evs, p2)) => Ok(
                        (seq![Event::OptionSome] + evs + seq![Event::OptionEnd], p2),
                    ),
                    Err(ev) => Err(ev),
                }
            } else {
                Err(ErrorView::InvalidSome(f0))
            }
        } else {
            Err(ErrorView::GetError(((bytes.len() - p) as nat, 1)))
        },
        DescriptionView::Res(a, b) => if p + 1 <= bytes.len() {
            let f0 = bytes[p as int];
            if f0 == 0 {
                match dec_desc(*a, m, bytes, p + 1, depth) {
                    Ok((evs, p2)) => Ok(
                        (seq![Event::ResultOk] + evs + seq![Event::ResultEnd], p2),
                    ),
                    Err(ev) => Err(ev),
                }
            } else if f0 == 1 {
                match dec_desc(*b, m, bytes, p + 1, depth) {
                    Ok((evs, p2)) => Ok(
                        (seq![Event::ResultErr] + evs + seq![Event::ResultEnd], p2),
                    ),
                    Err(ev) => Err(ev),
                }
            } else {
                Err(ErrorView::InvalidResult(f0))
            }
        } else {
            Err(ErrorView::GetError(((bytes.len() - p) as nat, 1)))
        },
        DescriptionView::Array(n, b) => match dec_array_items(*b, n, 0, m, bytes, p, depth) {
            Ok((evs, p2)) => Ok((seq![Event::BeginArray(n)] + evs + seq![Event::EndArray], p2)),
            Err(ev) => Err(ev),
        },
        DescriptionView::Slice(b) => if p + 8 <= bytes.len() {
            let count = crate::wire::le_val(bytes.subrange(p as int, p as int + 8));
            match dec_slice_items(*b, count, 0, m, bytes, p + 8, depth) {
                Ok((evs, p2)) => Ok(
                    (seq![Event::BeginSlice(count)] + evs + seq![Event::EndSlice], p2),
                ),
                Err(ev) => Err(ev),
            }
        } else {
            Err(ErrorView::GetError(((bytes.len() - p) as nat, 8)))
        },
        DescriptionView::Tuple(ds) => match dec_tuple_items(ds, 0, m, bytes, p, depth) {
            Ok((evs, p2)) => Ok(
                (seq![Event::BeginTuple(ds.len())] + evs + seq![Event::EndTuple], p2),
            ),
            Err(ev) => Err(ev),
        },
        DescriptionView::ByName(id, None) => if m.contains_key(id) {
            if depth == 0 {
                Err(ErrorView::RecursionLimit)
            } else {
                dec_named(id, m[id], m, bytes, p, (depth - 1) as nat)
            }
        } else {
            Err(ErrorView::MissingType(id))
        },
        DescriptionView::ByName(id, Some(b)) => dec_named(id, b, m, bytes, p, depth),
    }
}

/// Array items: each one is framed by its begin/end item events.
pub open spec fn dec_array_items(
    e: DescriptionView,
    count: nat,
    idx: nat,
    m: Map<TypeNameIdView, NamedView>,
    bytes: Seq<u8>,
    p: nat,
    depth: nat,
) -> Result<(Seq<Event>, nat), ErrorView>
    decreases depth, e, count,
{
    if count == 0 {
        Ok((Seq::empty(), p))
    } else {
        match dec_desc(e, m, bytes, p, depth) {
            Ok((evs, p2)) => match dec_array_items(
                e,
                (count - 1) as nat,
                idx + 1,
                m,
                bytes,
                p2,
                depth,
            ) {
                Ok((rest, p3)) => Ok(
                    (
                        seq![Event::BeginArrayItem(u16_idx(idx))] + evs + seq![Event::EndArrayItem]
                            + rest,
                        p3,
                    ),
                ),
                Err(ev) => Err(ev),
            },
            Err(ev) => Err(ev),
        }
    }
}

/// Slice items: like array items, with the slice framing events.
pub open spec fn dec_slice_items(
    e: DescriptionView,
    count: nat,
    idx: nat,
    m: Map<TypeNameIdView, NamedView>,
    bytes: Seq<u8>,
    p: nat,
    depth: nat,
) -> Result<(Seq<Event>, nat), ErrorView>
    decreases depth, e, count,
{
    if count == 0 {
        Ok((Seq::empty(), p))
    } else {
        match dec_desc(e, m, bytes, p, depth) {
            Ok((evs, p2)) => match dec_slice_items(
                e,
                (count - 1) as nat,
                idx + 1,
                m,
                bytes,
                p2,
                depth,
            ) {
                Ok((rest, p3)) => Ok(
                    (
                        seq![Event::BeginSliceItem(u16_idx(idx))] + evs + seq![Event::EndSliceItem]
                            + rest,
                        p3,
                    ),
                ),
                Err(ev) => Err(ev),
            },
            Err(ev) => Err(ev),
        }
    }
}

/// Tuple items, one per element description.
pub open spec fn dec_tuple_items(
    ds: Seq<DescriptionView>,
    idx: nat,
    m: Map<TypeNameIdView, NamedView>,
    bytes: Seq<u8>,
    p: nat,
    depth: nat,
) -> Result<(Seq<Event>, nat), ErrorView>
    decreases depth, ds, 0int,
{
    if ds.len() == 0 {
        Ok((Seq::empty(), p))
    } else {
        match dec_desc(ds[0], m, bytes, p, depth) {
            Ok((evs, p2)) => match dec_tuple_items(
                ds.subrange(1, ds.len() as int),
                idx + 1,
                m,
                bytes,
                p2,
                depth,
            ) {
                Ok((rest, p3)) => Ok(
                    (
                        seq![Event::BeginTupleItem(u16_idx(idx))] + evs + seq![Event::EndTupleItem]
                            + rest,
                        p3,
                    ),
                ),
                Err(ev) => Err(ev),
            },
            Err(ev) => Err(ev),
        }
    }
}

/// A named body: an enum reads its tag and dispatches into the chosen
/// variant; a struct body is walked directly.
pub open spec fn dec_named(
    idv: TypeNameIdView,
    n: NamedView,
    m: Map<TypeNameIdView, NamedView>,
    bytes: Seq<u8>,
    p: nat,
    depth: nat,
) -> Result<(Seq<Event>, nat), ErrorView>
    decreases depth, n, 1int,
{
    match n {
        NamedView::Enum(vars) => {
            let w = crate::wire::enum_tag_width(vars.len());
            if p + w > bytes.len() {
                Err(ErrorView::GetError(((bytes.len() - p) as nat, w)))
            } else {
                let tag = crate::wire::le_val(bytes.subrange(p as int, (p + w) as int));
                if tag >= vars.len() {
                    Err(ErrorView::InvalidIndex(tag, vars.len()))
                } else {
                    match dec_struct(None, vars[tag as int].1, m, bytes, p + w, depth) {
                        Ok((evs, p2)) => Ok(
                            (
                                seq![Event::BeginEnum(idv, vars[tag as int].0)] + evs + seq![
                                    Event::EndEnum(idv),
                                ],
                                p2,
                            ),
                        ),
                        Err(ev) => Err(ev),
                    }
                }
            }
        },
        NamedView::Struct(s) => dec_struct(Some(idv), s, m, bytes, p, depth),
    }
}

/// A product body: unit, tuple fields, or named fields, each field
/// framed by its begin/end events.
pub open spec fn dec_struct(
    oid: Option<TypeNameIdView>,
    s: StructView,
    m: Map<TypeNameIdView, NamedView>,
    bytes: Seq<u8>,
    p: nat,
    depth: nat,
) -> Result<(Seq<Event>, nat), ErrorView>
    decreases depth, s, 1int,
{
    match s {
        StructView::Unit => Ok((seq![Event::StructUnit(oid)], p)),
        StructView::Tuple(ds) => match dec_struct_tuple_fields(ds, 0, m, bytes, p, depth) {
            Ok((evs, p2)) => Ok(
                (seq![Event::BeginStructTuple(oid)] + evs + seq![Event::EndStructTuple], p2),
            ),
            Err(ev) => Err(ev),
        },
        StructView::Named(fs) => match dec_named_fields(fs, 0, m, bytes, p, depth) {
            Ok((evs, p2)) => Ok(
                (seq![Event::BeginStructNamed(oid)] + evs + seq![Event::EndStructNamed], p2),
            ),
            Err(ev) => Err(ev),
        },
    }
}

/// The fields of a tuple struct, in order.
pub open spec fn dec_struct_tuple_fields(
    ds: Seq<DescriptionView>,
    idx: nat,
    m: Map<TypeNameIdView, NamedView>,
    bytes: Seq<u8>,
    p: nat,
    depth: nat,
) -> Result<(Seq<Event>, nat), ErrorView>
    decreases depth, ds, 0int,
{
    if ds.len() == 0 {
        Ok((Seq::empty(), p))
    } else {
        match dec_desc(ds[0], m, bytes, p, depth) {
            Ok((evs, p2)) => match dec_struct_tuple_fields(
                ds.subrange(1, ds.len() as int),
                idx + 1,
                m,
                bytes,
                p2,
                depth,
            ) {
                Ok((rest, p3)) => Ok(
                    (
                        seq![Event::BeginTupleField(u16_idx(idx))] + evs + seq![
                            Event::EndTupleField,
                        ] + rest,
                        p3,
                    ),
                ),
                Err(ev) => Err(ev),
            },
            Err(ev) => Err(ev),
        }
    }
}

/// The named fields of a struct, in declaration order; the names come
/// from the description, never from the wire.
pub open spec fn dec_named_fields(
    fs: Seq<(Seq<char>, DescriptionView)>,
    idx: nat,
    m: Map<TypeNameIdView, NamedView>,
    bytes: Seq<u8>,
    p: nat,
    depth: nat,
) -> Result<(Seq<Event>, nat), ErrorView>
    decreases depth, fs, 0int,
{
    if fs.len() == 0 {
        Ok((Seq::empty(), p))
    } else {
        match dec_desc(fs[0].1, m, bytes, p, depth) {
            Ok((evs, p2)) => match dec_named_fields(
                fs.subrange(1, fs.len() as int),
                idx + 1,
                m,
                bytes,
                p2,
                depth,
            ) {
                Ok((rest, p3)) => Ok(
                    (
                        seq![Event::BeginNamedField(u16_idx(idx), fs[0].0)] + evs + seq![
                            Event::EndNamedField,
                        ] + rest,
                        p3,
                    ),
                ),
                Err(ev) => Err(ev),
            },
            Err(ev) => Err(ev),
        }
    }
}

/// Round-trip fact for one byte.
proof fn lemma_le_val_one(v: u8)
    ensures
        crate::wire::le_val(seq![v]) == v,
{
    assert(seq![v].subrange(1, 1) =~= Seq::<u8>::empty());
    assert(crate::wire::le_val(Seq::<u8>::empty()) == 0);
}

/// Round-trip fact for 16-bit reads.
proof fn lemma_le_val_round16(v: u16)
    ensures
        crate::wire::le_val(crate::wire::le_bytes(v as nat, 2)) == v,
{
    reveal_with_fuel(crate::wire::pow256, 3);
    crate::wire::lemma_le_val_le_bytes(v as nat, 2);
}

/// Round-trip fact for 32-bit reads.
proof fn lemma_le_val_round32(v: u32)
    ensures
        crate::wire::le_val(crate::wire::le_bytes(v as nat, 4)) == v,
{
    reveal_with_fuel(crate::wire::pow256, 5);
    crate::wire::lemma_le_val_le_bytes(v as nat, 4);
}

/// Round-trip fact for 64-bit reads.
proof fn lemma_le_val_round64(v: u64)
    ensures
        crate::wire::le_val(crate::wire::le_bytes(v as nat, 8)) == v,
{
    reveal_with_fuel(crate::wire::pow256, 9);
    crate::wire::lemma_le_val_le_bytes(v as nat, 8);
}

/// The decoder: it borrows a registry and a byte buffer and walks both
/// in lockstep with a description, reporting events to a visitor.
pub struct Decoder<'a, 'b> {
    pub types: &'a NameMap,
    pub buffer: BufDecoder<'b>,
}

impl<'a, 'b> Decoder<'a, 'b> {
    /// Both the registry and the buffer are in working order.
    pub open spec fn wf(&self) -> bool {
        self.buffer.wf() && self.types.wf()
    }

    pub fn new(types: &'a NameMap, buffer: BufDecoder<'b>) -> (r: Self)
        ensures
            r.types == types,
            r.buffer == buffer,
    {
        Self { types, buffer }
    }

    /// Decode one value of the given description from the buffer,
    /// reporting everything to the visitor.
    ///
    /// The call succeeds exactly when the mathematical decoder yields an
    /// outcome; it then consumes exactly the bytes the outcome says and
    /// the visitor hears exactly the outcome's events, in order.
    pub fn decode<C: Callbacks>(&mut self, desc: &Description, callbacks: &mut C) -> (r: Result<
        (),
        Error,
    >)
        requires
            old(self).wf(),
        ensures
            final(self).wf(),
            final(self).types == old(self).types,
            final(self).buffer.spec_data() == old(self).buffer.spec_data(),
            final(callbacks).config() == old(callbacks).config(),
            (desc matches Description::ByName(id, None) && !old(self).types@.contains_key(
                id_view(*id),
            )) ==> (*final(callbacks) == *old(callbacks)
                && final(self).buffer == old(self).buffer),
            match dec_desc(
                desc.dv(),
                old(self).types@,
                old(self).buffer.spec_data(),
                old(self).buffer.spec_pos(),
                DECODE_DEPTH_LIMIT as nat,
            ) {
                Ok((evs, p2)) => r is Ok && final(callbacks).events() == old(callbacks).events()
                    + evs && final(self).buffer.spec_pos() == p2,
                Err(ev) => r matches Err(e) && err_view(e) == ev && old(
                    callbacks,
                ).events().is_prefix_of(final(callbacks).events()),
            },
    {
        self.decode_at(desc, callbacks, DECODE_DEPTH_LIMIT)
    }

    /// Decode a named type directly: look its body up and walk it.
    pub fn decode_by_name<C: Callbacks>(
        &mut self,
        typename_id: &TypeNameId,
        callbacks: &mut C,
    ) -> (r: Result<(), Error>)
        requires
            old(self).wf(),
        ensures
            final(self).wf(),
            final(self).types == old(self).types,
            final(self).buffer.spec_data() == old(self).buffer.spec_data(),
            final(callbacks).config() == old(callbacks).config(),
            !old(self).types@.contains_key(id_view(*typename_id)) ==> (r matches Err(e)
                && err_view(e) == ErrorView::MissingType(id_view(*typename_id))
                && *final(callbacks) == *old(callbacks)
                && final(self).buffer == old(self).buffer),
            old(self).types@.contains_key(id_view(*typename_id)) ==> match dec_named(
                id_view(*typename_id),
                old(self).types@[id_view(*typename_id)],
                old(self).types@,
                old(self).buffer.spec_data(),
                old(self).buffer.spec_pos(),
                DECODE_DEPTH_LIMIT as nat,
            ) {
                Ok((evs, p2)) => r is Ok && final(callbacks).events() == old(callbacks).events()
                    + evs && final(self).buffer.spec_pos() == p2,
                Err(ev) => r matches Err(e) && err_view(e) == ev && old(
                    callbacks,
                ).events().is_prefix_of(final(callbacks).events()),
            },
    {
        let t = self.types;
        match t.get_named(typename_id) {
            None => Err(
                Error::MissingType(
                    (crate::strings::string_copy(typename_id.0.as_str()), typename_id.1),
                ),
            ),
            Some(named) => self.decode_by_name_direct(
                typename_id,
                named,
                callbacks,
                DECODE_DEPTH_LIMIT,
            ),
        }
    }

    #[verifier::rlimit(100)]
    #[verifier::spinoff_prover]
    fn decode_at<C: Callbacks>(
        &mut self,
        desc: &Description,
        callbacks: &mut C,
        depth: u64,
    ) -> (r: Result<(), Error>)
        requires
            old(self).wf(),
        ensures
            final(self).wf(),
            final(self).types == old(self).types,
            final(self).buffer.spec_data() == old(self).buffer.spec_data(),
            final(callbacks).config() == old(callbacks).config(),
            (desc matches Description::ByName(id, None) && !old(self).types@.contains_key(
                id_view(*id),
            )) ==> (*final(callbacks) == *old(callbacks)
                && final(self).buffer == old(self).buffer),
            (desc matches Description::Res(a, b) && ({
                let data = old(self).buffer.spec_data();
                let p = old(self).buffer.spec_pos();
                p + 1 <= data.len() && data[p as int] != 0 && data[p as int] != 1
            })) ==> (*final(callbacks) == *old(callbacks) && final(self).buffer.spec_pos() == old(
                self,
            ).buffer.spec_pos() + 1),
            match dec_desc(
                desc.dv(),
                old(self).types@,
                old(self).buffer.spec_data(),
                old(self).buffer.spec_pos(),
                depth as nat,
            ) {
                Ok((evs, p2)) => r is Ok && final(callbacks).events() == old(callbacks).events()
                    + evs && final(self).buffer.spec_pos() == p2,
                Err(ev) => r matches Err(e) && err_view(e) == ev && old(
                    callbacks,
                ).events().is_prefix_of(final(callbacks).events()),
            },
        decreases depth, *desc, 0int,
    {
        let ghost e0 = callbacks.events();
        let ghost data = old(self).buffer.spec_data();
        let ghost p = old(self).buffer.spec_pos();
        match desc {
            Description::U8 => match self.buffer.get_u8() {
                Ok(v) => {
                    proof {
                        assert(seq![v] =~= data.subrange(p as int, p as int + 1));
                        assert(v == data.subrange(p as int, p as int + 1)[0]);
                        assert(v == data[p as int]);
                    }
                    callbacks.handle_u8(v);
                    proof {
                        assert(callbacks.events() =~= e0 + seq![Event::U8(v)]);
                    }
                    Ok(())
                },
                Err(e) => Err(Error::GetError(e)),
            },
            Description::U16 => match self.buffer.get_u16() {
                Ok(v) => {
                    callbacks.handle_u16(v);
                    proof {
                        lemma_le_val_round16(v);
                        assert(callbacks.events() =~= e0 + seq![Event::U16(v)]);
                    }
                    Ok(())
                },
                Err(e) => Err(Error::GetError(e)),
            },
            Description::U32 => match self.buffer.get_u32() {
                Ok(v) => {
                    callbacks.handle_u32(v);
                    proof {
                        lemma_le_val_round32(v);
                        assert(callbacks.events() =~= e0 + seq![Event::U32(v)]);
                    }
                    Ok(())
                },
                Err(e) => Err(Error::GetError(e)),
            },
            Description::U64 => match self.buffer.get_u64() {
                Ok(v) => {
                    callbacks.handle_u64(v);
                    proof {
                        lemma_le_val_round64(v);
                        assert(callbacks.events() =~= e0 + seq![Event::U64(v)]);
                    }
                    Ok(())
                },
                Err(e) => Err(Error::GetError(e)),
            },
            Description::I8 => match self.buffer.get_u8() {
                Ok(v) => {
                    proof {
                        assert(seq![v] =~= data.subrange(p as int, p as int + 1));
                        assert(v == data.subrange(p as int, p as int + 1)[0]);
                        assert(v == data[p as int]);
                    }
                    let w = crate::wire_signed::wire_i8_of_u8(v);
                    callbacks.handle_i8(w as i32);
                    proof {
                        assert(callbacks.events() =~= e0 + seq![Event::I8(w as i32)]);
                    }
                    Ok(())
                },
                Err(e) => Err(Error::GetError(e)),
            },
            Description::I16 => match self.buffer.get_u16() {
                Ok(v) => {
                    let w = crate::wire_signed::wire_i16_of_u16(v);
                    callbacks.handle_i16(w as i32);
                    proof {
                        lemma_le_val_round16(v);
                        assert(callbacks.events() =~= e0 + seq![Event::I16(w as i32)]);
                    }
                    Ok(())
                },
                Err(e) => Err(Error::GetError(e)),
            },
            Description::I32 => match self.buffer.get_u32() {
                Ok(v) => {
                    let w = crate::wire_signed::wire_i32_of_u32(v);
                    callbacks.handle_i32(w);
                    proof {
                        lemma_le_val_round32(v);
                        assert(callbacks.events() =~= e0 + seq![Event::I32(w)]);
                    }
                    Ok(())
                },
                Err(e) => Err(Error::GetError(e)),
            },
            Description::I64 => match self.buffer.get_u64() {
                Ok(v) => {
                    let w = crate::wire_signed::wire_i64_of_u64(v);
                    callbacks.handle_i64(w);
                    proof {
                        lemma_le_val_round64(v);
                        assert(callbacks.events() =~= e0 + seq![Event::I64(w)]);
                    }
                    Ok(())
                },
                Err(e) => Err(Error::GetError(e)),
            },
            Description::Bool => match self.buffer.get_u8() {
                Ok(v) => {
                    proof {
                        assert(seq![v] =~= data.subrange(p as int, p as int + 1));
                        assert(v == data.subrange(p as int, p as int + 1)[0]);
                        assert(v == data[p as int]);
                    }
                    callbacks.handle_bool(v != 0);
                    proof {
                        assert(callbacks.events() =~= e0 + seq![Event::Bool(v != 0)]);
                    }
                    Ok(())
                },
                Err(e) => Err(Error::GetError(e)),
            },
            Description::Unit => {
                callbacks.handle_unit();
                proof {
                    assert(callbacks.events() =~= e0 + seq![Event::Unit]);
                }
                Ok(())
            },
            Description::Phantom => {
                callbacks.handle_phantom();
                proof {
                    assert(callbacks.events() =~= e0 + seq![Event::Phantom]);
                }
                Ok(())
            },
            Description::RawPtr => match self.buffer.get_u64() {
                Ok(v) => {
                    callbacks.handle_u64(v);
                    proof {
                        lemma_le_val_round64(v);
                        assert(callbacks.events() =~= e0 + seq![Event::U64(v)]);
                    }
                    Ok(())
                },
                Err(e) => Err(Error::GetError(e)),
            },
            Description::Str => self.decode_string(callbacks),
            Description::Opt(sub) => self.decode_option(sub, callbacks, depth),
            Description::Res(sub, sub2) => {
                let f0 = match self.buffer.get_u8() {
                    Ok(v) => v,
                    Err(e) => {
                        return Err(Error::GetError(e));
                    },
                };
                proof {
                    assert(seq![f0] =~= data.subrange(p as int, p as int + 1));
                    assert(f0 == data.subrange(p as int, p as int + 1)[0]);
                    assert(f0 == data[p as int]);
                }
                if f0 == 0 {
                    callbacks.result_ok();
                    match self.decode_at(sub, callbacks, depth) {
                        Ok(()) => {
                            callbacks.result_end();
                            proof {
                                let step = dec_desc(
                                    sub.dv(),
                                    old(self).types@,
                                    data,
                                    p + 1,
                                    depth as nat,
                                );
                                let evs = step->Ok_0.0;
                                assert(callbacks.events() =~= e0 + (seq![Event::ResultOk] + evs
                                    + seq![Event::ResultEnd]));
                            }
                            Ok(())
                        },
                        Err(e) => Err(e),
                    }
                } else if f0 == 1 {
                    callbacks.result_err();
                    match self.decode_at(sub2, callbacks, depth) {
                        Ok(()) => {
                            callbacks.result_end();
                            proof {
                                let step = dec_desc(
                                    sub2.dv(),
                                    old(self).types@,
                                    data,
                                    p + 1,
                                    depth as nat,
                                );
                                let evs = step->Ok_0.0;
                                assert(callbacks.events() =~= e0 + (seq![Event::ResultErr] + evs
                                    + seq![Event::ResultEnd]));
                            }
                            Ok(())
                        },
                        Err(e) => Err(e),
                    }
                } else {
                    Err(Error::InvalidResult(f0))
                }
            },
            Description::Array(size, sub) => self.decode_array(*size, sub, callbacks, depth),
            Description::Slice(sub) => self.decode_slice(sub, callbacks, depth),
            Description::Tuple(subs) => self.decode_tuple(subs, callbacks, depth),
            Description::ByName(id, None) => {
                let t = self.types;
                match t.get_named(id) {
                    None => Err(
                        Error::MissingType((crate::strings::string_copy(id.0.as_str()), id.1)),
                    ),
                    Some(named) => {
                        if depth == 0 {
                            Err(Error::RecursionLimit)
                        } else {
                            self.decode_by_name_direct(id, named, callbacks, depth - 1)
                        }
                    },
                }
            },
            Description::ByName(id, Some(named)) => self.decode_by_name_direct(
                id,
                named,
                callbacks,
                depth,
            ),
        }
    }

    /// Read an option marker and the payload it announces.
    fn decode_option<C: Callbacks>(
        &mut self,
        desc: &Description,
        callbacks: &mut C,
        depth: u64,
    ) -> (r: Result<(), Error>)
        requires
            old(self).wf(),
        ensures
            final(self).wf(),
            final(self).types == old(self).types,
            final(self).buffer.spec_data() == old(self).buffer.spec_data(),
            final(callbacks).config() == old(callbacks).config(),
            ({
                let data = old(self).buffer.spec_data();
                let p = old(self).buffer.spec_pos();
                p + 1 <= data.len() && data[p as int] != 0 && data[p as int] != 1
            }) ==> (*final(callbacks) == *old(callbacks)
                && final(self).buffer.spec_pos() == old(self).buffer.spec_pos() + 1),
            match dec_desc(
                DescriptionView::Opt(Box::new(desc.dv())),
                old(self).types@,
                old(self).buffer.spec_data(),
                old(self).buffer.spec_pos(),
                depth as nat,
            ) {
                Ok((evs, p2)) => r is Ok && final(callbacks).events() == old(callbacks).events()
                    + evs && final(self).buffer.spec_pos() == p2,
                Err(ev) => r matches Err(e) && err_view(e) == ev && old(
                    callbacks,
                ).events().is_prefix_of(final(callbacks).events()),
            },
        decreases depth, *desc, 1int,
    {
        let ghost e0 = callbacks.events();
        let f0 = match self.buffer.get_u8() {
            Ok(v) => v,
            Err(e) => {
                return Err(Error::GetError(e));
            },
        };
        proof {
            assert(seq![f0] =~= old(self).buffer.spec_data().subrange(
                old(self).buffer.spec_pos() as int,
                old(self).buffer.spec_pos() as int + 1,
            ));
            assert(f0 == old(self).buffer.spec_data().subrange(
                old(self).buffer.spec_pos() as int,
                old(self).buffer.spec_pos() as int + 1,
            )[0]);
            assert(f0 == old(self).buffer.spec_data()[old(self).buffer.spec_pos() as int]);
        }
        if f0 == 0 {
            callbacks.option_none();
            proof {
                assert(callbacks.events() =~= e0 + seq![Event::OptionNone]);
            }
            Ok(())
        } else if f0 == 1 {
            callbacks.option_some();
            match self.decode_at(desc, callbacks, depth) {
                Ok(()) => {
                    callbacks.option_end();
                    proof {
                        let step = dec_desc(
                            desc.dv(),
                            old(self).types@,
                            old(self).buffer.spec_data(),
                            old(self).buffer.spec_pos() + 1,
                            depth as nat,
                        );
                        let evs = step->Ok_0.0;
                        assert(callbacks.events() =~= e0 + (seq![Event::OptionSome] + evs + seq![
                            Event::OptionEnd,
                        ]));
                    }
                    Ok(())
                },
                Err(e) => Err(e),
            }
        } else {
            Err(Error::InvalidSome(f0))
        }
    }

    /// Read a string: its variable-width length header, then its bytes,
    /// which must be valid UTF-8.
    #[verifier::rlimit(100)]
    #[verifier::spinoff_prover]
    fn decode_string<C: Callbacks>(&mut self, callbacks: &mut C) -> (r: Result<(), Error>)
        requires
            old(self).wf(),
        ensures
            final(self).wf(),
            final(self).types == old(self).types,
            final(self).buffer.spec_data() == old(self).buffer.spec_data(),
            final(callbacks).config() == old(callbacks).config(),
            match dec_desc(
                DescriptionView::Str,
                old(self).types@,
                old(self).buffer.spec_data(),
                old(self).buffer.spec_pos(),
                0,
            ) {
                Ok((evs, p2)) => r is Ok && final(callbacks).events() == old(callbacks).events()
                    + evs && final(self).buffer.spec_pos() == p2,
                Err(ev) => r matches Err(e) && err_view(e) == ev && old(
                    callbacks,
                ).events().is_prefix_of(final(callbacks).events()),
            },
    {
        broadcast use vstd::utf8::encode_utf8_decode_utf8;
        broadcast use vstd::utf8::decode_utf8_encode_utf8;

        let ghost e0 = callbacks.events();
        let ghost data = old(self).buffer.spec_data();
        let ghost p = old(self).buffer.spec_pos();
        let f0 = match self.buffer.get_u8() {
            Ok(v) => v,
            Err(e) => {
                return Err(Error::GetError(e));
            },
        };
        proof {
            assert(seq![f0] =~= data.subrange(p as int, p as int + 1));
            assert(f0 == data.subrange(p as int, p as int + 1)[0]);
            assert(f0 == data[p as int]);
        }
        let tag = f0 % 4;
        let strlen: u64 = if tag == 0 {
            (f0 / 4) as u64
        } else if tag == 1 {
            let f1 = match self.buffer.get_u8() {
                Ok(v) => v,
                Err(e) => {
                    return Err(Error::GetError(e));
                },
            };
            proof {
                assert(seq![f1] =~= data.subrange(p as int + 1, p as int + 2));
                assert(f1 == data.subrange(p as int + 1, p as int + 2)[0]);
                assert(f1 == data[p as int + 1]);
            }
            (f0 / 4) as u64 + 64 * (f1 as u64)
        } else if tag == 2 {
            let f1 = match self.buffer.get_u8() {
                Ok(v) => v,
                Err(e) => {
                    return Err(Error::GetError(e));
                },
            };
            proof {
                assert(seq![f1] =~= data.subrange(p as int + 1, p as int + 2));
                assert(f1 == data.subrange(p as int + 1, p as int + 2)[0]);
                assert(f1 == data[p as int + 1]);
            }
            let f2 = match self.buffer.get_u16() {
                Ok(v) => v,
                Err(e) => {
                    return Err(Error::GetError(e));
                },
            };
            proof {
                lemma_le_val_round16(f2);
            }
            (f0 / 4) as u64 + 64 * (f1 as u64) + 16384 * (f2 as u64)
        } else {
            let f1 = match self.buffer.get_u8() {
                Ok(v) => v,
                Err(e) => {
                    return Err(Error::GetError(e));
                },
            };
            proof {
                assert(seq![f1] =~= data.subrange(p as int + 1, p as int + 2));
                assert(f1 == data.subrange(p as int + 1, p as int + 2)[0]);
                assert(f1 == data[p as int + 1]);
            }
            let f2 = match self.buffer.get_u16() {
                Ok(v) => v,
                Err(e) => {
                    return Err(Error::GetError(e));
                },
            };
            let f3 = match self.buffer.get_u32() {
                Ok(v) => v,
                Err(e) => {
                    return Err(Error::GetError(e));
                },
            };
            proof {
                lemma_le_val_round16(f2);
                lemma_le_val_round32(f3);
            }
            (f0 / 4) as u64 + 64 * (f1 as u64) + 16384 * (f2 as u64) + 0x4000_0000 * (f3 as u64)
        };
        let remaining = self.buffer.remaining();
        if strlen > remaining as u64 {
            return Err(Error::GetError((remaining, if strlen > (usize::MAX as u64) {
                usize::MAX
            } else {
                strlen as usize
            })));
        }
        let u8slice = match self.buffer.get_slice(strlen as usize) {
            Ok(s) => s,
            Err(e) => {
                return Err(Error::GetError(e));
            },
        };
        match crate::strings::try_str_from_utf8(u8slice) {
            Some(strslice) => {
                callbacks.handle_string(strslice);
                proof {
                    assert(strslice@ == vstd::utf8::decode_utf8(u8slice@));
                    assert(callbacks.events() =~= e0 + seq![Event::Str(strslice@)]);
                }
                Ok(())
            },
            None => Err(Error::UTF8Error),
        }
    }

    /// A fixed-length array: its count comes from the description.
    #[verifier::loop_isolation(false)]
    #[verifier::rlimit(100)]
    #[verifier::spinoff_prover]
    fn decode_array<C: Callbacks>(
        &mut self,
        size: usize,
        sub: &Description,
        callbacks: &mut C,
        depth: u64,
    ) -> (r: Result<(), Error>)
        requires
            old(self).wf(),
        ensures
            final(self).wf(),
            final(self).types == old(self).types,
            final(self).buffer.spec_data() == old(self).buffer.spec_data(),
            final(callbacks).config() == old(callbacks).config(),
            match dec_desc(
                DescriptionView::Array(size as nat, Box::new(sub.dv())),
                old(self).types@,
                old(self).buffer.spec_data(),
                old(self).buffer.spec_pos(),
                depth as nat,
            ) {
                Ok((evs, p2)) => r is Ok && final(callbacks).events() == old(callbacks).events()
                    + evs && final(self).buffer.spec_pos() == p2,
                Err(ev) => r matches Err(e) && err_view(e) == ev && old(
                    callbacks,
                ).events().is_prefix_of(final(callbacks).events()),
            },
        decreases depth, *sub, 1int,
    {
        let ghost e0 = callbacks.events();
        let ghost m0 = self.types@;
        let ghost data = self.buffer.spec_data();
        let ghost p0 = self.buffer.spec_pos();
        let ghost whole = dec_array_items(sub.dv(), size as nat, 0, m0, data, p0, depth as nat);
        callbacks.begin_array(size);
        let ghost base = callbacks.events();
        let ghost cfg0 = callbacks.config();
        let ghost mut acc: Seq<Event> = Seq::empty();
        proof {
            if whole is Ok {
                assert(Seq::<Event>::empty() + whole->Ok_0.0 =~= whole->Ok_0.0);
            }
        }
        let mut idx: usize = 0;
        while idx < size
            invariant
                self.wf(),
                self.types == old(self).types,
                self.buffer.spec_data() == data,
                idx <= size,
                callbacks.events() == base + acc,
                callbacks.config() == cfg0,
                match dec_array_items(
                    sub.dv(),
                    (size - idx) as nat,
                    idx as nat,
                    m0,
                    data,
                    self.buffer.spec_pos(),
                    depth as nat,
                ) {
                    Ok((rest, pf)) => whole == Ok::<(Seq<Event>, nat), ErrorView>((acc + rest, pf)),
                    Err(ev) => whole == Err::<(Seq<Event>, nat), ErrorView>(ev),
                },
            decreases size - idx,
        {
            callbacks.begin_array_item((idx % 0x10000) as u16);
            let ghost p_at = self.buffer.spec_pos();
            match self.decode_at(sub, callbacks, depth) {
                Ok(()) => {},
                Err(e) => {
                    return Err(e);
                },
            }
            callbacks.end_array_item();
            proof {
                let step = dec_desc(sub.dv(), m0, data, p_at, depth as nat);
                let evs = step->Ok_0.0;
                let acc_old = acc;
                acc = acc + seq![Event::BeginArrayItem(u16_idx(idx as nat))] + evs + seq![
                    Event::EndArrayItem,
                ];
                assert(callbacks.events() =~= base + acc);
                let tail = dec_array_items(
                    sub.dv(),
                    (size - idx - 1) as nat,
                    idx as nat + 1,
                    m0,
                    data,
                    self.buffer.spec_pos(),
                    depth as nat,
                );
                if tail is Ok {
                    let rest2 = tail->Ok_0.0;
                    assert(acc_old + (seq![Event::BeginArrayItem(u16_idx(idx as nat))] + evs
                        + seq![Event::EndArrayItem] + rest2) =~= acc + rest2);
                }
            }
            idx = idx + 1;
        }
        callbacks.end_array();
        proof {
            assert(acc + Seq::<Event>::empty() =~= acc);
            let evs_all = whole->Ok_0.0;
            assert(callbacks.events() =~= e0 + (seq![Event::BeginArray(size as nat)] + evs_all
                + seq![Event::EndArray]));
        }
        Ok(())
    }

    /// A dynamic slice: its count is a 64-bit prefix on the wire.
    #[verifier::loop_isolation(false)]
    #[verifier::rlimit(100)]
    #[verifier::spinoff_prover]
    fn decode_slice<C: Callbacks>(
        &mut self,
        sub: &Description,
        callbacks: &mut C,
        depth: u64,
    ) -> (r: Result<(), Error>)
        requires
            old(self).wf(),
        ensures
            final(self).wf(),
            final(self).types == old(self).types,
            final(self).buffer.spec_data() == old(self).buffer.spec_data(),
            final(callbacks).config() == old(callbacks).config(),
            match dec_desc(
                DescriptionView::Slice(Box::new(sub.dv())),
                old(self).types@,
                old(self).buffer.spec_data(),
                old(self).buffer.spec_pos(),
                depth as nat,
            ) {
                Ok((evs, p2)) => r is Ok && final(callbacks).events() == old(callbacks).events()
                    + evs && final(self).buffer.spec_pos() == p2,
                Err(ev) => r matches Err(e) && err_view(e) == ev && old(
                    callbacks,
                ).events().is_prefix_of(final(callbacks).events()),
            },
        decreases depth, *sub, 1int,
    {
        let ghost e0 = callbacks.events();
        let ghost m0 = self.types@;
        let ghost data = self.buffer.spec_data();
        let size64 = match self.buffer.get_u64() {
            Ok(v) => v,
            Err(e) => {
                return Err(Error::GetError(e));
            },
        };
        proof {
            lemma_le_val_round64(size64);
        }
        let ghost p0 = self.buffer.spec_pos();
        let ghost whole = dec_slice_items(sub.dv(), size64 as nat, 0, m0, data, p0, depth as nat);
        callbacks.begin_slice(size64);
        let ghost base = callbacks.events();
        let ghost cfg0 = callbacks.config();
        let ghost mut acc: Seq<Event> = Seq::empty();
        proof {
            if whole is Ok {
                assert(Seq::<Event>::empty() + whole->Ok_0.0 =~= whole->Ok_0.0);
            }
        }
        let mut idx: u64 = 0;
        while idx < size64
            invariant
                self.wf(),
                self.types == old(self).types,
                self.buffer.spec_data() == data,
                idx <= size64,
                callbacks.events() == base + acc,
                callbacks.config() == cfg0,
                match dec_slice_items(
                    sub.dv(),
                    (size64 - idx) as nat,
                    idx as nat,
                    m0,
                    data,
                    self.buffer.spec_pos(),
                    depth as nat,
                ) {
                    Ok((rest, pf)) => whole == Ok::<(Seq<Event>, nat), ErrorView>((acc + rest, pf)),
                    Err(ev) => whole == Err::<(Seq<Event>, nat), ErrorView>(ev),
                },
            decreases size64 - idx,
        {
            callbacks.begin_slice_item((idx % 0x10000) as u16);
            let ghost p_at = self.buffer.spec_pos();
            match self.decode_at(sub, callbacks, depth) {
                Ok(()) => {},
                Err(e) => {
                    return Err(e);
                },
            }
            callbacks.end_slice_item();
            proof {
                let step = dec_desc(sub.dv(), m0, data, p_at, depth as nat);
                let evs = step->Ok_0.0;
                let acc_old = acc;
                acc = acc + seq![Event::BeginSliceItem(u16_idx(idx as nat))] + evs + seq![
                    Event::EndSliceItem,
                ];
                assert(callbacks.events() =~= base + acc);
                let tail = dec_slice_items(
                    sub.dv(),
                    (size64 - idx - 1) as nat,
                    idx as nat + 1,
                    m0,
                    data,
                    self.buffer.spec_pos(),
                    depth as nat,
                );
                if tail is Ok {
                    let rest2 = tail->Ok_0.0;
                    assert(acc_old + (seq![Event::BeginSliceItem(u16_idx(idx as nat))] + evs
                        + seq![Event::EndSliceItem] + rest2) =~= acc + rest2);
                }
            }
            idx = idx + 1;
        }
        callbacks.end_slice();
        proof {
            assert(acc + Seq::<Event>::empty() =~= acc);
            let evs_all = whole->Ok_0.0;
            assert(callbacks.events() =~= e0 + (seq![Event::BeginSlice(size64 as nat)] + evs_all
                + seq![Event::EndSlice]));
        }
        Ok(())
    }

    /// A tuple: one element per description, in order.
    #[verifier::loop_isolation(false)]
    #[verifier::rlimit(100)]
    #[verifier::spinoff_prover]
    fn decode_tuple<C: Callbacks>(
        &mut self,
        subs: &Vec<Description>,
        callbacks: &mut C,
        depth: u64,
    ) -> (r: Result<(), Error>)
        requires
            old(self).wf(),
        ensures
            final(self).wf(),
            final(self).types == old(self).types,
            final(self).buffer.spec_data() == old(self).buffer.spec_data(),
            final(callbacks).config() == old(callbacks).config(),
            match dec_desc(
                DescriptionView::Tuple(dv_seq(subs@)),
                old(self).types@,
                old(self).buffer.spec_data(),
                old(self).buffer.spec_pos(),
                depth as nat,
            ) {
                Ok((evs, p2)) => r is Ok && final(callbacks).events() == old(callbacks).events()
                    + evs && final(self).buffer.spec_pos() == p2,
                Err(ev) => r matches Err(e) && err_view(e) == ev && old(
                    callbacks,
                ).events().is_prefix_of(final(callbacks).events()),
            },
        decreases depth, subs@, 1int,
    {
        let ghost e0 = callbacks.events();
        let ghost m0 = self.types@;
        let ghost data = self.buffer.spec_data();
        let ghost p0 = self.buffer.spec_pos();
        let ghost ds = dv_seq(subs@);
        let ghost whole = dec_tuple_items(ds, 0, m0, data, p0, depth as nat);
        proof {
            lemma_dv_seq(subs@);
        }
        let size = subs.len();
        callbacks.begin_tuple(size);
        let ghost base = callbacks.events();
        let ghost cfg0 = callbacks.config();
        let ghost mut acc: Seq<Event> = Seq::empty();
        proof {
            assert(ds.skip(0) =~= ds);
            if whole is Ok {
                assert(Seq::<Event>::empty() + whole->Ok_0.0 =~= whole->Ok_0.0);
            }
        }
        let mut idx: usize = 0;
        while idx < size
            invariant
                self.wf(),
                self.types == old(self).types,
                self.buffer.spec_data() == data,
                idx <= size,
                callbacks.events() == base + acc,
                callbacks.config() == cfg0,
                match dec_tuple_items(
                    ds.skip(idx as int),
                    idx as nat,
                    m0,
                    data,
                    self.buffer.spec_pos(),
                    depth as nat,
                ) {
                    Ok((rest, pf)) => whole == Ok::<(Seq<Event>, nat), ErrorView>((acc + rest, pf)),
                    Err(ev) => whole == Err::<(Seq<Event>, nat), ErrorView>(ev),
                },
            decreases size - idx,
        {
            callbacks.begin_tuple_item((idx % 0x10000) as u16);
            let ghost p_at = self.buffer.spec_pos();
            proof {
                assert(ds.skip(idx as int)[0] == ds[idx as int]);
                assert(ds[idx as int] == subs@[idx as int].dv());
            }
            match self.decode_at(&subs[idx], callbacks, depth) {
                Ok(()) => {},
                Err(e) => {
                    return Err(e);
                },
            }
            callbacks.end_tuple_item();
            proof {
                let step = dec_desc(ds[idx as int], m0, data, p_at, depth as nat);
                let evs = step->Ok_0.0;
                let acc_old = acc;
                acc = acc + seq![Event::BeginTupleItem(u16_idx(idx as nat))] + evs + seq![
                    Event::EndTupleItem,
                ];
                assert(callbacks.events() =~= base + acc);
                assert(ds.skip(idx as int).subrange(1, ds.skip(idx as int).len() as int) =~= ds.skip(
                    idx as int + 1,
                ));
                let tail = dec_tuple_items(
                    ds.skip(idx as int + 1),
                    idx as nat + 1,
                    m0,
                    data,
                    self.buffer.spec_pos(),
                    depth as nat,
                );
                if tail is Ok {
                    let rest2 = tail->Ok_0.0;
                    assert(acc_old + (seq![Event::BeginTupleItem(u16_idx(idx as nat))] + evs
                        + seq![Event::EndTupleItem] + rest2) =~= acc + rest2);
                }
            }
            idx = idx + 1;
        }
        callbacks.end_tuple();
        proof {
            assert(ds.skip(size as int) =~= Seq::<DescriptionView>::empty());
            assert(acc + Seq::<Event>::empty() =~= acc);
            let evs_all = whole->Ok_0.0;
            assert(callbacks.events() =~= e0 + (seq![Event::BeginTuple(ds.len())] + evs_all
                + seq![Event::EndTuple]));
        }
        Ok(())
    }

    /// A named body: read the enum tag if it is a sum, then walk the
    /// chosen shape.
    #[verifier::rlimit(100)]
    #[verifier::spinoff_prover]
    fn decode_by_name_direct<C: Callbacks>(
        &mut self,
        typename_id: &TypeNameId,
        named: &Named,
        callbacks: &mut C,
        depth: u64,
    ) -> (r: Result<(), Error>)
        requires
            old(self).wf(),
        ensures
            final(self).wf(),
            final(self).types == old(self).types,
            final(self).buffer.spec_data() == old(self).buffer.spec_data(),
            final(callbacks).config() == old(callbacks).config(),
            (named.nv() matches NamedView::Enum(vars) && ({
                let w = crate::wire::enum_tag_width(vars.len());
                let data = old(self).buffer.spec_data();
                let p = old(self).buffer.spec_pos();
                p + w <= data.len() && crate::wire::le_val(
                    data.subrange(p as int, (p + w) as int),
                ) >= vars.len()
            })) ==> *final(callbacks) == *old(callbacks),
            match dec_named(
                id_view(*typename_id),
                named.nv(),
                old(self).types@,
                old(self).buffer.spec_data(),
                old(self).buffer.spec_pos(),
                depth as nat,
            ) {
                Ok((evs, p2)) => r is Ok && final(callbacks).events() == old(callbacks).events()
                    + evs && final(self).buffer.spec_pos() == p2,
                Err(ev) => r matches Err(e) && err_view(e) == ev && old(
                    callbacks,
                ).events().is_prefix_of(final(callbacks).events()),
            },
        decreases depth, *named, 1int,
    {
        let ghost e0 = callbacks.events();
        match named {
            Named::Enum(optvec) => {
                proof {
                    lemma_variant_seq_view(optvec@);
                }
                let len = optvec.len();
                let idx: usize = if len < 0x100 {
                    match self.buffer.get_u8() {
                        Ok(v) => {
                            proof {
                                lemma_le_val_one(v);
                            }
                            v as usize
                        },
                        Err(e) => {
                            return Err(Error::GetError(e));
                        },
                    }
                } else if len < 0x10000 {
                    match self.buffer.get_u16() {
                        Ok(v) => {
                            proof {
                                lemma_le_val_round16(v);
                            }
                            v as usize
                        },
                        Err(e) => {
                            return Err(Error::GetError(e));
                        },
                    }
                } else {
                    match self.buffer.get_u32() {
                        Ok(v) => {
                            proof {
                                lemma_le_val_round32(v);
                            }
                            v as usize
                        },
                        Err(e) => {
                            return Err(Error::GetError(e));
                        },
                    }
                };
                if idx >= len {
                    return Err(Error::InvalidIndex(idx, len));
                }
                callbacks.begin_enum(typename_id, &optvec[idx].0);
                let ghost p_at = self.buffer.spec_pos();
                match self.decode_struct(None, &optvec[idx].1, callbacks, depth) {
                    Ok(()) => {
                        callbacks.end_enum(typename_id);
                        proof {
                            let step = dec_struct(
                                None,
                                optvec@[idx as int].1.sv(),
                                old(self).types@,
                                old(self).buffer.spec_data(),
                                p_at,
                                depth as nat,
                            );
                            let evs = step->Ok_0.0;
                            assert(callbacks.events() =~= e0 + (seq![
                                Event::BeginEnum(id_view(*typename_id), optvec@[idx as int].0@),
                            ] + evs + seq![Event::EndEnum(id_view(*typename_id))]));
                        }
                        Ok(())
                    },
                    Err(e) => Err(e),
                }
            },
            Named::Struct(desc) => self.decode_struct(Some(typename_id), desc, callbacks, depth),
        }
    }

    /// A product shape: unit, tuple fields, or named fields.
    /// The named fields of a struct body, in order.
    #[verifier::loop_isolation(false)]
    #[verifier::rlimit(100)]
    #[verifier::spinoff_prover]
    fn decode_named_fields<C: Callbacks>(
        &mut self,
        v: &Vec<(String, Description)>,
        callbacks: &mut C,
        depth: u64,
    ) -> (r: Result<(), Error>)
        requires
            old(self).wf(),
        ensures
            final(self).wf(),
            final(self).types == old(self).types,
            final(self).buffer.spec_data() == old(self).buffer.spec_data(),
            final(callbacks).config() == old(callbacks).config(),
            match dec_named_fields(
                field_seq_view(v@),
                0,
                old(self).types@,
                old(self).buffer.spec_data(),
                old(self).buffer.spec_pos(),
                depth as nat,
            ) {
                Ok((evs, p2)) => r is Ok && final(callbacks).events() == old(callbacks).events()
                    + evs && final(self).buffer.spec_pos() == p2,
                Err(ev) => r matches Err(e) && err_view(e) == ev && old(
                    callbacks,
                ).events().is_prefix_of(final(callbacks).events()),
            },
        decreases depth, v@, 2int,
    {
        let ghost m0 = self.types@;
        let ghost data = self.buffer.spec_data();
        let ghost p0 = self.buffer.spec_pos();
        proof {
            lemma_field_seq_view(v@);
        }
        let ghost fs = field_seq_view(v@);
        let ghost whole = dec_named_fields(fs, 0, m0, data, p0, depth as nat);
        let ghost base = callbacks.events();
        let ghost cfg0 = callbacks.config();
        let ghost mut acc: Seq<Event> = Seq::empty();
        proof {
            assert(fs.skip(0) =~= fs);
            if whole is Ok {
                assert(Seq::<Event>::empty() + whole->Ok_0.0 =~= whole->Ok_0.0);
            }
        }
        let size = v.len();
        let mut idx: usize = 0;
        while idx < size
            invariant
                self.wf(),
                self.types == old(self).types,
                self.buffer.spec_data() == data,
                idx <= size,
                callbacks.events() == base + acc,
                callbacks.config() == cfg0,
                match dec_named_fields(
                    fs.skip(idx as int),
                    idx as nat,
                    m0,
                    data,
                    self.buffer.spec_pos(),
                    depth as nat,
                ) {
                    Ok((rest, pf)) => whole == Ok::<(Seq<Event>, nat), ErrorView>((acc + rest, pf)),
                    Err(ev) => whole == Err::<(Seq<Event>, nat), ErrorView>(ev),
                },
            decreases size - idx,
        {
            callbacks.begin_named_field((idx % 0x10000) as u16, &v[idx].0);
            let ghost p_at = self.buffer.spec_pos();
            proof {
                assert(fs.skip(idx as int)[0] == fs[idx as int]);
                assert(fs[idx as int] == (v@[idx as int].0@, v@[idx as int].1.dv()));
            }
            match self.decode_at(&v[idx].1, callbacks, depth) {
                Ok(()) => {},
                Err(e) => {
                    return Err(e);
                },
            }
            callbacks.end_named_field();
            proof {
                let step = dec_desc(fs[idx as int].1, m0, data, p_at, depth as nat);
                let evs = step->Ok_0.0;
                let acc_old = acc;
                acc = acc + seq![Event::BeginNamedField(u16_idx(idx as nat), fs[idx as int].0)]
                    + evs + seq![Event::EndNamedField];
                assert(callbacks.events() =~= base + acc);
                assert(fs.skip(idx as int).subrange(1, fs.skip(idx as int).len() as int)
                    =~= fs.skip(idx as int + 1));
                let tail = dec_named_fields(
                    fs.skip(idx as int + 1),
                    idx as nat + 1,
                    m0,
                    data,
                    self.buffer.spec_pos(),
                    depth as nat,
                );
                if tail is Ok {
                    let rest2 = tail->Ok_0.0;
                    assert(acc_old + (seq![
                        Event::BeginNamedField(u16_idx(idx as nat), fs[idx as int].0),
                    ] + evs + seq![Event::EndNamedField] + rest2) =~= acc + rest2);
                }
            }
            idx = idx + 1;
        }
        proof {
            assert(fs.skip(size as int) =~= Seq::<(Seq<char>, DescriptionView)>::empty());
            assert(acc + Seq::<Event>::empty() =~= acc);
        }
        Ok(())
    }

    /// The fields of a tuple struct body, in order.
    #[verifier::loop_isolation(false)]
    #[verifier::rlimit(100)]
    #[verifier::spinoff_prover]
    fn decode_tuple_fields<C: Callbacks>(
        &mut self,
        v: &Vec<Description>,
        callbacks: &mut C,
        depth: u64,
    ) -> (r: Result<(), Error>)
        requires
            old(self).wf(),
        ensures
            final(self).wf(),
            final(self).types == old(self).types,
            final(self).buffer.spec_data() == old(self).buffer.spec_data(),
            final(callbacks).config() == old(callbacks).config(),
            match dec_struct_tuple_fields(
                dv_seq(v@),
                0,
                old(self).types@,
                old(self).buffer.spec_data(),
                old(self).buffer.spec_pos(),
                depth as nat,
            ) {
                Ok((evs, p2)) => r is Ok && final(callbacks).events() == old(callbacks).events()
                    + evs && final(self).buffer.spec_pos() == p2,
                Err(ev) => r matches Err(e) && err_view(e) == ev && old(
                    callbacks,
                ).events().is_prefix_of(final(callbacks).events()),
            },
        decreases depth, v@, 2int,
    {
        let ghost m0 = self.types@;
        let ghost data = self.buffer.spec_data();
        let ghost p0 = self.buffer.spec_pos();
        proof {
            lemma_dv_seq(v@);
        }
        let ghost ds = dv_seq(v@);
        let ghost whole = dec_struct_tuple_fields(ds, 0, m0, data, p0, depth as nat);
        let ghost base = callbacks.events();
        let ghost cfg0 = callbacks.config();
        let ghost mut acc: Seq<Event> = Seq::empty();
        proof {
            assert(ds.skip(0) =~= ds);
            if whole is Ok {
                assert(Seq::<Event>::empty() + whole->Ok_0.0 =~= whole->Ok_0.0);
            }
        }
        let size = v.len();
        let mut idx: usize = 0;
        while idx < size
            invariant
                self.wf(),
                self.types == old(self).types,
                self.buffer.spec_data() == data,
                idx <= size,
                callbacks.events() == base + acc,
                callbacks.config() == cfg0,
                match dec_struct_tuple_fields(
                    ds.skip(idx as int),
                    idx as nat,
                    m0,
                    data,
                    self.buffer.spec_pos(),
                    depth as nat,
                ) {
                    Ok((rest, pf)) => whole == Ok::<(Seq<Event>, nat), ErrorView>((acc + rest, pf)),
                    Err(ev) => whole == Err::<(Seq<Event>, nat), ErrorView>(ev),
                },
            decreases size - idx,
        {
            callbacks.begin_tuple_field((idx % 0x10000) as u16);
            let ghost p_at = self.buffer.spec_pos();
            proof {
                assert(ds.skip(idx as int)[0] == ds[idx as int]);
                assert(ds[idx as int] == v@[idx as int].dv());
            }
            match self.decode_at(&v[idx], callbacks, depth) {
                Ok(()) => {},
                Err(e) => {
                    return Err(e);
                },
            }
            callbacks.end_tuple_field();
            proof {
                let step = dec_desc(ds[idx as int], m0, data, p_at, depth as nat);
                let evs = step->Ok_0.0;
                let acc_old = acc;
                acc = acc + seq![Event::BeginTupleField(u16_idx(idx as nat))] + evs + seq![
                    Event::EndTupleField,
                ];
                assert(callbacks.events() =~= base + acc);
                assert(ds.skip(idx as int).subrange(1, ds.skip(idx as int).len() as int) =~= ds.skip(
                    idx as int + 1,
                ));
                let tail = dec_struct_tuple_fields(
                    ds.skip(idx as int + 1),
                    idx as nat + 1,
                    m0,
                    data,
                    self.buffer.spec_pos(),
                    depth as nat,
                );
                if tail is Ok {
                    let rest2 = tail->Ok_0.0;
                    assert(acc_old + (seq![Event::BeginTupleField(u16_idx(idx as nat))] + evs
                        + seq![Event::EndTupleField] + rest2) =~= acc + rest2);
                }
            }
            idx = idx + 1;
        }
        proof {
            assert(ds.skip(size as int) =~= Seq::<DescriptionView>::empty());
            assert(acc + Seq::<Event>::empty() =~= acc);
        }
        Ok(())
    }

    /// A product shape: unit, tuple fields, or named fields.
    #[verifier::rlimit(100)]
    #[verifier::spinoff_prover]
    fn decode_struct<C: Callbacks>(
        &mut self,
        typename_id: Option<&TypeNameId>,
        struct_desc: &Struct,
        callbacks: &mut C,
        depth: u64,
    ) -> (r: Result<(), Error>)
        requires
            old(self).wf(),
        ensures
            final(self).wf(),
            final(self).types == old(self).types,
            final(self).buffer.spec_data() == old(self).buffer.spec_data(),
            final(callbacks).config() == old(callbacks).config(),
            match dec_struct(
                oid_view(typename_id),
                struct_desc.sv(),
                old(self).types@,
                old(self).buffer.spec_data(),
                old(self).buffer.spec_pos(),
                depth as nat,
            ) {
                Ok((evs, p2)) => r is Ok && final(callbacks).events() == old(callbacks).events()
                    + evs && final(self).buffer.spec_pos() == p2,
                Err(ev) => r matches Err(e) && err_view(e) == ev && old(
                    callbacks,
                ).events().is_prefix_of(final(callbacks).events()),
            },
        decreases depth, *struct_desc, 3int,
    {
        let ghost e0 = callbacks.events();
        let ghost m0 = self.types@;
        let ghost data = self.buffer.spec_data();
        let ghost p0 = self.buffer.spec_pos();
        match struct_desc {
            Struct::Unit => {
                callbacks.struct_unit(typename_id);
                proof {
                    assert(callbacks.events() =~= e0 + seq![
                        Event::StructUnit(oid_view(typename_id)),
                    ]);
                }
                Ok(())
            },
            Struct::Named(v) => {
                callbacks.begin_struct_named(typename_id);
                match self.decode_named_fields(v, callbacks, depth) {
                    Ok(()) => {
                        callbacks.end_struct_named();
                        proof {
                            let step = dec_named_fields(
                                field_seq_view(v@),
                                0,
                                m0,
                                data,
                                p0,
                                depth as nat,
                            );
                            let evs = step->Ok_0.0;
                            assert(callbacks.events() =~= e0 + (seq![
                                Event::BeginStructNamed(oid_view(typename_id)),
                            ] + evs + seq![Event::EndStructNamed]));
                        }
                        Ok(())
                    },
                    Err(e) => Err(e),
                }
            },
            Struct::Tuple(v) => {
                callbacks.begin_struct_tuple(typename_id);
                match self.decode_tuple_fields(v, callbacks, depth) {
                    Ok(()) => {
                        callbacks.end_struct_tuple();
                        proof {
                            let step = dec_struct_tuple_fields(
                                dv_seq(v@),
                                0,
                                m0,
                                data,
                                p0,
                                depth as nat,
                            );
                            let evs = step->Ok_0.0;
                            assert(callbacks.events() =~= e0 + (seq![
                                Event::BeginStructTuple(oid_view(typename_id)),
                            ] + evs + seq![Event::EndStructTuple]));
                        }
                        Ok(())
                    },
                    Err(e) => Err(e),
                }
            },
        }
    }
}

} // verus!


