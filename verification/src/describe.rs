//! Instances of the describe contract.
//!
//! Scalars return their constant description and leave the registry
//! alone.  Containers recurse into their element types, threading the
//! registry through.  Named types first ask the registry for their
//! identifier: the first sighting in a session ships the expanded body,
//! every later one only the reference — which is also what keeps the
//! description of a recursive type finite.

use vstd::prelude::*;

use crate::{Description, DescriptionView, LogpackType, RegistryView, SeenTypes};
use crate::{Duration, Instant, LogpackTypeWrapper, Named, NamedView, Struct, StructView};
use crate::{dv_seq, lemma_dv_seq, next_disamb, time_pair_body};

verus! {

/// Token of the [`Duration`] time-like type.
pub const DURATION_TOKEN: u64 = 16;

/// Token of the [`Instant`] time-like type.
pub const INSTANT_TOKEN: u64 = 17;

fn desc_vec2(a: Description, b: Description) -> (v: Vec<Description>)
    ensures
        v@ == seq![a, b],
{
    let mut v: Vec<Description> = Vec::new();
    v.push(a);
    v.push(b);
    proof {
        assert(v@ =~= seq![a, b]);
    }
    v
}

fn desc_vec3(a: Description, b: Description, c: Description) -> (v: Vec<Description>)
    ensures
        v@ == seq![a, b, c],
{
    let mut v: Vec<Description> = Vec::new();
    v.push(a);
    v.push(b);
    v.push(c);
    proof {
        assert(v@ =~= seq![a, b, c]);
    }
    v
}

/// `dv_seq` of a two-element sequence, spelled out.
proof fn lemma_dv_seq_two(s: Seq<Description>)
    requires
        s.len() == 2,
    ensures
        dv_seq(s) == seq![s[0].dv(), s[1].dv()],
{
    lemma_dv_seq(s);
    assert(dv_seq(s) =~= seq![s[0].dv(), s[1].dv()]);
}

/// `dv_seq` of a three-element sequence, spelled out.
proof fn lemma_dv_seq_three(s: Seq<Description>)
    requires
        s.len() == 3,
    ensures
        dv_seq(s) == seq![s[0].dv(), s[1].dv(), s[2].dv()],
{
    lemma_dv_seq(s);
    assert(dv_seq(s) =~= seq![s[0].dv(), s[1].dv(), s[2].dv()]);
}

/// The expanded body the time-like types ship, with its view pinned.
fn time_pair_named() -> (body: Named)
    ensures
        body.nv() == time_pair_body(),
{
    let fields = desc_vec2(Description::U64, Description::U32);
    let ghost fseq = fields@;
    proof {
        lemma_dv_seq(fseq);
        assert(fseq[0].dv() == DescriptionView::U64);
        assert(fseq[1].dv() == DescriptionView::U32);
        assert(dv_seq(fseq) =~= seq![DescriptionView::U64, DescriptionView::U32]);
    }
    let body = Named::Struct(Struct::Tuple(fields));
    proof {
        assert(body.nv() == NamedView::Struct(StructView::Tuple(dv_seq(fseq))));
        assert(body.nv() == time_pair_body());
    }
    body
}

impl LogpackType for u64 {
    open spec fn spec_describe(pre: RegistryView) -> (DescriptionView, RegistryView) {
        (DescriptionView::U64, pre)
    }

    open spec fn spec_token() -> u64 {
        1
    }

    fn type_token() -> (t: u64) {
        1
    }

    fn logpack_describe(seen: &mut SeenTypes) -> (d: Description) {
        Description::U64
    }

    fn logpack_describe_by_value(&self, seen: &mut SeenTypes) -> (d: Description) {
        Description::U64
    }
}

impl LogpackType for u32 {
    open spec fn spec_describe(pre: RegistryView) -> (DescriptionView, RegistryView) {
        (DescriptionView::U32, pre)
    }

    open spec fn spec_token() -> u64 {
        2
    }

    fn type_token() -> (t: u64) {
        2
    }

    fn logpack_describe(seen: &mut SeenTypes) -> (d: Description) {
        Description::U32
    }

    fn logpack_describe_by_value(&self, seen: &mut SeenTypes) -> (d: Description) {
        Description::U32
    }
}

impl LogpackType for u16 {
    open spec fn spec_describe(pre: RegistryView) -> (DescriptionView, RegistryView) {
        (DescriptionView::U16, pre)
    }

    open spec fn spec_token() -> u64 {
        3
    }

    fn type_token() -> (t: u64) {
        3
    }

    fn logpack_describe(seen: &mut SeenTypes) -> (d: Description) {
        Description::U16
    }

    fn logpack_describe_by_value(&self, seen: &mut SeenTypes) -> (d: Description) {
        Description::U16
    }
}

impl LogpackType for u8 {
    open spec fn spec_describe(pre: RegistryView) -> (DescriptionView, RegistryView) {
        (DescriptionView::U8, pre)
    }

    open spec fn spec_token() -> u64 {
        4
    }

    fn type_token() -> (t: u64) {
        4
    }

    fn logpack_describe(seen: &mut SeenTypes) -> (d: Description) {
        Description::U8
    }

    fn logpack_describe_by_value(&self, seen: &mut SeenTypes) -> (d: Description) {
        Description::U8
    }
}

/// `usize` is described as its 64-bit wire form.
impl LogpackType for usize {
    open spec fn spec_describe(pre: RegistryView) -> (DescriptionView, RegistryView) {
        (DescriptionView::U64, pre)
    }

    open spec fn spec_token() -> u64 {
        5
    }

    fn type_token() -> (t: u64) {
        5
    }

    fn logpack_describe(seen: &mut SeenTypes) -> (d: Description) {
        Description::U64
    }

    fn logpack_describe_by_value(&self, seen: &mut SeenTypes) -> (d: Description) {
        Description::U64
    }
}

impl LogpackType for i64 {
    open spec fn spec_describe(pre: RegistryView) -> (DescriptionView, RegistryView) {
        (DescriptionView::I64, pre)
    }

    open spec fn spec_token() -> u64 {
        6
    }

    fn type_token() -> (t: u64) {
        6
    }

    fn logpack_describe(seen: &mut SeenTypes) -> (d: Description) {
        Description::I64
    }

    fn logpack_describe_by_value(&self, seen: &mut SeenTypes) -> (d: Description) {
        Description::I64
    }
}

impl LogpackType for i32 {
    open spec fn spec_describe(pre: RegistryView) -> (DescriptionView, RegistryView) {
        (DescriptionView::I32, pre)
    }

    open spec fn spec_token() -> u64 {
        7
    }

    fn type_token() -> (t: u64) {
        7
    }

    fn logpack_describe(seen: &mut SeenTypes) -> (d: Description) {
        Description::I32
    }

    fn logpack_describe_by_value(&self, seen: &mut SeenTypes) -> (d: Description) {
        Description::I32
    }
}

impl LogpackType for i16 {
    open spec fn spec_describe(pre: RegistryView) -> (DescriptionView, RegistryView) {
        (DescriptionView::I16, pre)
    }

    open spec fn spec_token() -> u64 {
        8
    }

    fn type_token() -> (t: u64) {
        8
    }

    fn logpack_describe(seen: &mut SeenTypes) -> (d: Description) {
        Description::I16
    }

    fn logpack_describe_by_value(&self, seen: &mut SeenTypes) -> (d: Description) {
        Description::I16
    }
}

impl LogpackType for i8 {
    open spec fn spec_describe(pre: RegistryView) -> (DescriptionView, RegistryView) {
        (DescriptionView::I8, pre)
    }

    open spec fn spec_token() -> u64 {
        9
    }

    fn type_token() -> (t: u64) {
        9
    }

    fn logpack_describe(seen: &mut SeenTypes) -> (d: Description) {
        Description::I8
    }

    fn logpack_describe_by_value(&self, seen: &mut SeenTypes) -> (d: Description) {
        Description::I8
    }
}

/// `isize` is described as its 64-bit wire form.
impl LogpackType for isize {
    open spec fn spec_describe(pre: RegistryView) -> (DescriptionView, RegistryView) {
        (DescriptionView::I64, pre)
    }

    open spec fn spec_token() -> u64 {
        10
    }

    fn type_token() -> (t: u64) {
        10
    }

    fn logpack_describe(seen: &mut SeenTypes) -> (d: Description) {
        Description::I64
    }

    fn logpack_describe_by_value(&self, seen: &mut SeenTypes) -> (d: Description) {
        Description::I64
    }
}

impl LogpackType for () {
    open spec fn spec_describe(pre: RegistryView) -> (DescriptionView, RegistryView) {
        (DescriptionView::Unit, pre)
    }

    open spec fn spec_token() -> u64 {
        11
    }

    fn type_token() -> (t: u64) {
        11
    }

    fn logpack_describe(seen: &mut SeenTypes) -> (d: Description) {
        Description::Unit
    }

    fn logpack_describe_by_value(&self, seen: &mut SeenTypes) -> (d: Description) {
        Description::Unit
    }
}

impl LogpackType for bool {
    open spec fn spec_describe(pre: RegistryView) -> (DescriptionView, RegistryView) {
        (DescriptionView::Bool, pre)
    }

    open spec fn spec_token() -> u64 {
        12
    }

    fn type_token() -> (t: u64) {
        12
    }

    fn logpack_describe(seen: &mut SeenTypes) -> (d: Description) {
        Description::Bool
    }

    fn logpack_describe_by_value(&self, seen: &mut SeenTypes) -> (d: Description) {
        Description::Bool
    }
}

impl LogpackType for str {
    open spec fn spec_describe(pre: RegistryView) -> (DescriptionView, RegistryView) {
        (DescriptionView::Str, pre)
    }

    open spec fn spec_token() -> u64 {
        13
    }

    fn type_token() -> (t: u64) {
        13
    }

    fn logpack_describe(seen: &mut SeenTypes) -> (d: Description) {
        Description::Str
    }

    fn logpack_describe_by_value(&self, seen: &mut SeenTypes) -> (d: Description) {
        Description::Str
    }
}

impl LogpackType for String {
    open spec fn spec_describe(pre: RegistryView) -> (DescriptionView, RegistryView) {
        (DescriptionView::Str, pre)
    }

    open spec fn spec_token() -> u64 {
        14
    }

    fn type_token() -> (t: u64) {
        14
    }

    fn logpack_describe(seen: &mut SeenTypes) -> (d: Description) {
        Description::Str
    }

    fn logpack_describe_by_value(&self, seen: &mut SeenTypes) -> (d: Description) {
        Description::Str
    }
}

/// A phantom field contributes nothing to the wire and is described so.
impl<T: LogpackType> LogpackType for core::marker::PhantomData<T> {
    open spec fn spec_describe(pre: RegistryView) -> (DescriptionView, RegistryView) {
        (DescriptionView::Phantom, pre)
    }

    open spec fn spec_token() -> u64 {
        15
    }

    fn type_token() -> (t: u64) {
        15
    }

    fn logpack_describe(seen: &mut SeenTypes) -> (d: Description) {
        Description::Phantom
    }

    fn logpack_describe_by_value(&self, seen: &mut SeenTypes) -> (d: Description) {
        Description::Phantom
    }
}

impl<T: LogpackType> LogpackType for Option<T> {
    open spec fn spec_describe(pre: RegistryView) -> (DescriptionView, RegistryView) {
        let (sub, m) = T::spec_describe(pre);
        (DescriptionView::Opt(Box::new(sub)), m)
    }

    open spec fn spec_token() -> u64 {
        0
    }

    fn type_token() -> (t: u64) {
        0
    }

    fn logpack_describe(seen: &mut SeenTypes) -> (d: Description) {
        let sub = T::logpack_describe(seen);
        Description::Opt(Box::new(sub))
    }

    fn logpack_describe_by_value(&self, seen: &mut SeenTypes) -> (d: Description) {
        let sub = T::logpack_describe(seen);
        Description::Opt(Box::new(sub))
    }
}

impl<T: LogpackType, S: LogpackType> LogpackType for Result<T, S> {
    open spec fn spec_describe(pre: RegistryView) -> (DescriptionView, RegistryView) {
        let (ok_sub, m1) = T::spec_describe(pre);
        let (err_sub, m2) = S::spec_describe(m1);
        (DescriptionView::Res(Box::new(ok_sub), Box::new(err_sub)), m2)
    }

    open spec fn spec_token() -> u64 {
        0
    }

    fn type_token() -> (t: u64) {
        0
    }

    fn logpack_describe(seen: &mut SeenTypes) -> (d: Description) {
        let ok_sub = T::logpack_describe(seen);
        let err_sub = S::logpack_describe(seen);
        Description::Res(Box::new(ok_sub), Box::new(err_sub))
    }

    fn logpack_describe_by_value(&self, seen: &mut SeenTypes) -> (d: Description) {
        let ok_sub = T::logpack_describe(seen);
        let err_sub = S::logpack_describe(seen);
        Description::Res(Box::new(ok_sub), Box::new(err_sub))
    }
}

/// An empty array is described as the unit; any other fixed length is
/// part of the shape.
impl<T: LogpackType, const N: usize> LogpackType for [T; N] {
    open spec fn spec_describe(pre: RegistryView) -> (DescriptionView, RegistryView) {
        if N == 0 {
            (DescriptionView::Unit, pre)
        } else {
            let (sub, m) = T::spec_describe(pre);
            (DescriptionView::Array(N as nat, Box::new(sub)), m)
        }
    }

    open spec fn spec_token() -> u64 {
        0
    }

    fn type_token() -> (t: u64) {
        0
    }

    fn logpack_describe(seen: &mut SeenTypes) -> (d: Description) {
        if N == 0 {
            return Description::Unit;
        }
        let sub = T::logpack_describe(seen);
        Description::Array(N, Box::new(sub))
    }

    fn logpack_describe_by_value(&self, seen: &mut SeenTypes) -> (d: Description) {
        if N == 0 {
            return Description::Unit;
        }
        let sub = T::logpack_describe(seen);
        Description::Array(N, Box::new(sub))
    }
}

impl<T: LogpackType> LogpackType for [T] {
    open spec fn spec_describe(pre: RegistryView) -> (DescriptionView, RegistryView) {
        let (sub, m) = T::spec_describe(pre);
        (DescriptionView::Slice(Box::new(sub)), m)
    }

    open spec fn spec_token() -> u64 {
        0
    }

    fn type_token() -> (t: u64) {
        0
    }

    fn logpack_describe(seen: &mut SeenTypes) -> (d: Description) {
        let sub = T::logpack_describe(seen);
        Description::Slice(Box::new(sub))
    }

    fn logpack_describe_by_value(&self, seen: &mut SeenTypes) -> (d: Description) {
        let sub = T::logpack_describe(seen);
        Description::Slice(Box::new(sub))
    }
}

impl<A: LogpackType, B: LogpackType> LogpackType for (A, B) {
    open spec fn spec_describe(pre: RegistryView) -> (DescriptionView, RegistryView) {
        let (a, m1) = A::spec_describe(pre);
        let (b, m2) = B::spec_describe(m1);
        (DescriptionView::Tuple(seq![a, b]), m2)
    }

    open spec fn spec_token() -> u64 {
        0
    }

    fn type_token() -> (t: u64) {
        0
    }

    #[verifier::rlimit(100)]
    #[verifier::spinoff_prover]
    fn logpack_describe(seen: &mut SeenTypes) -> (d: Description) {
        let da = A::logpack_describe(seen);
        let db = B::logpack_describe(seen);
        let v = desc_vec2(da, db);
        proof {
            lemma_dv_seq_two(v@);
        }
        Description::Tuple(v)
    }

    #[verifier::rlimit(100)]
    #[verifier::spinoff_prover]
    fn logpack_describe_by_value(&self, seen: &mut SeenTypes) -> (d: Description) {
        let da = A::logpack_describe(seen);
        let db = B::logpack_describe(seen);
        let v = desc_vec2(da, db);
        proof {
            lemma_dv_seq_two(v@);
        }
        Description::Tuple(v)
    }
}

impl<A: LogpackType, B: LogpackType, C: LogpackType> LogpackType for (A, B, C) {
    open spec fn spec_describe(pre: RegistryView) -> (DescriptionView, RegistryView) {
        let (a, m1) = A::spec_describe(pre);
        let (b, m2) = B::spec_describe(m1);
        let (c, m3) = C::spec_describe(m2);
        (DescriptionView::Tuple(seq![a, b, c]), m3)
    }

    open spec fn spec_token() -> u64 {
        0
    }

    fn type_token() -> (t: u64) {
        0
    }

    #[verifier::rlimit(100)]
    #[verifier::spinoff_prover]
    fn logpack_describe(seen: &mut SeenTypes) -> (d: Description) {
        let ghost pre = old(seen)@;
        let da = A::logpack_describe(seen);
        let ghost m1 = seen@;
        let db = B::logpack_describe(seen);
        let ghost m2 = seen@;
        let dc = C::logpack_describe(seen);
        let v = desc_vec3(da, db, dc);
        proof {
            lemma_dv_seq_three(v@);
            assert(da.dv() == A::spec_describe(pre).0 && m1 == A::spec_describe(pre).1);
            assert(db.dv() == B::spec_describe(m1).0 && m2 == B::spec_describe(m1).1);
            assert(dc.dv() == C::spec_describe(m2).0 && seen@ == C::spec_describe(m2).1);
        }
        Description::Tuple(v)
    }

    #[verifier::rlimit(100)]
    #[verifier::spinoff_prover]
    fn logpack_describe_by_value(&self, seen: &mut SeenTypes) -> (d: Description) {
        let ghost pre = old(seen)@;
        let da = A::logpack_describe(seen);
        let ghost m1 = seen@;
        let db = B::logpack_describe(seen);
        let ghost m2 = seen@;
        let dc = C::logpack_describe(seen);
        let v = desc_vec3(da, db, dc);
        proof {
            lemma_dv_seq_three(v@);
            assert(da.dv() == A::spec_describe(pre).0 && m1 == A::spec_describe(pre).1);
            assert(db.dv() == B::spec_describe(m1).0 && m2 == B::spec_describe(m1).1);
            assert(dc.dv() == C::spec_describe(m2).0 && seen@ == C::spec_describe(m2).1);
        }
        Description::Tuple(v)
    }
}

/// A reference is described as its referent.
impl<'a, T: LogpackType + ?Sized> LogpackType for &'a T {
    open spec fn spec_describe(pre: RegistryView) -> (DescriptionView, RegistryView) {
        T::spec_describe(pre)
    }

    open spec fn spec_token() -> u64 {
        T::spec_token()
    }

    fn type_token() -> (t: u64) {
        T::type_token()
    }

    fn logpack_describe(seen: &mut SeenTypes) -> (d: Description) {
        T::logpack_describe(seen)
    }

    fn logpack_describe_by_value(&self, seen: &mut SeenTypes) -> (d: Description) {
        T::logpack_describe(seen)
    }
}

/// A mutable reference is described as its referent.
impl<'a, T: LogpackType + ?Sized> LogpackType for &'a mut T {
    open spec fn spec_describe(pre: RegistryView) -> (DescriptionView, RegistryView) {
        T::spec_describe(pre)
    }

    open spec fn spec_token() -> u64 {
        T::spec_token()
    }

    fn type_token() -> (t: u64) {
        T::type_token()
    }

    fn logpack_describe(seen: &mut SeenTypes) -> (d: Description) {
        T::logpack_describe(seen)
    }

    fn logpack_describe_by_value(&self, seen: &mut SeenTypes) -> (d: Description) {
        T::logpack_describe(seen)
    }
}

/// A box is described as its contents.
impl<T: LogpackType> LogpackType for Box<T> {
    open spec fn spec_describe(pre: RegistryView) -> (DescriptionView, RegistryView) {
        T::spec_describe(pre)
    }

    open spec fn spec_token() -> u64 {
        T::spec_token()
    }

    fn type_token() -> (t: u64) {
        T::type_token()
    }

    fn logpack_describe(seen: &mut SeenTypes) -> (d: Description) {
        T::logpack_describe(seen)
    }

    fn logpack_describe_by_value(&self, seen: &mut SeenTypes) -> (d: Description) {
        T::logpack_describe(seen)
    }
}

/// The wrapper is described as the type it carries.
impl<T: LogpackType> LogpackType for LogpackTypeWrapper<T> {
    open spec fn spec_describe(pre: RegistryView) -> (DescriptionView, RegistryView) {
        T::spec_describe(pre)
    }

    open spec fn spec_token() -> u64 {
        T::spec_token()
    }

    fn type_token() -> (t: u64) {
        T::type_token()
    }

    fn logpack_describe(seen: &mut SeenTypes) -> (d: Description) {
        T::logpack_describe(seen)
    }

    fn logpack_describe_by_value(&self, seen: &mut SeenTypes) -> (d: Description) {
        T::logpack_describe(seen)
    }
}

impl LogpackType for Duration {
    open spec fn spec_describe(pre: RegistryView) -> (DescriptionView, RegistryView) {
        if pre.ids.contains_key(DURATION_TOKEN) {
            (DescriptionView::ByName(pre.ids[DURATION_TOKEN], None), pre)
        } else {
            let idv = ("Duration"@, next_disamb(pre.counts["Duration"@]));
            (
                DescriptionView::ByName(idv, Some(time_pair_body())),
                RegistryView {
                    ids: pre.ids.insert(DURATION_TOKEN, idv),
                    counts: pre.counts.insert("Duration"@, pre.counts["Duration"@] + 1),
                },
            )
        }
    }

    open spec fn spec_token() -> u64 {
        DURATION_TOKEN
    }

    fn type_token() -> (t: u64) {
        DURATION_TOKEN
    }

    #[verifier::rlimit(100)]
    #[verifier::spinoff_prover]
    fn logpack_describe(seen: &mut SeenTypes) -> (d: Description) {
        let (first, id) = seen.make_name_for_id("Duration", DURATION_TOKEN);
        if first {
            let body = time_pair_named();
            Description::ByName(id, Some(body))
        } else {
            Description::ByName(id, None)
        }
    }

    fn logpack_describe_by_value(&self, seen: &mut SeenTypes) -> (d: Description) {
        Self::logpack_describe(seen)
    }
}

impl LogpackType for Instant {
    open spec fn spec_describe(pre: RegistryView) -> (DescriptionView, RegistryView) {
        if pre.ids.contains_key(INSTANT_TOKEN) {
            (DescriptionView::ByName(pre.ids[INSTANT_TOKEN], None), pre)
        } else {
            let idv = ("Instant"@, next_disamb(pre.counts["Instant"@]));
            (
                DescriptionView::ByName(idv, Some(time_pair_body())),
                RegistryView {
                    ids: pre.ids.insert(INSTANT_TOKEN, idv),
                    counts: pre.counts.insert("Instant"@, pre.counts["Instant"@] + 1),
                },
            )
        }
    }

    open spec fn spec_token() -> u64 {
        INSTANT_TOKEN
    }

    fn type_token() -> (t: u64) {
        INSTANT_TOKEN
    }

    #[verifier::rlimit(100)]
    #[verifier::spinoff_prover]
    fn logpack_describe(seen: &mut SeenTypes) -> (d: Description) {
        let (first, id) = seen.make_name_for_id("Instant", INSTANT_TOKEN);
        if first {
            let body = time_pair_named();
            Description::ByName(id, Some(body))
        } else {
            Description::ByName(id, None)
        }
    }

    fn logpack_describe_by_value(&self, seen: &mut SeenTypes) -> (d: Description) {
        Self::logpack_describe(seen)
    }
}

} // verus!
