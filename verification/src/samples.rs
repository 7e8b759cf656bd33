//! Worked record types: small structs and sums with hand-written encode
//! and describe instances, of the shape a code generator would emit.
//! They exercise every kind of body the wire format knows — unit, tuple
//! and named-field structs, a sum over them, a generic container and a
//! recursive type — and they anchor the end-to-end tests.

use vstd::prelude::*;

use crate::buffers::BufEncoder;
use crate::encoder::{Encoder, encode_stored_string, encoded_string_len};
use crate::wire::{le_bytes, str_len_ok, str_wire};
use crate::{Description, DescriptionView, LogpackType, RegistryView, SeenTypes, id_view};
use crate::{Named, NamedView, Struct, StructView};
use crate::{dv_seq, lemma_dv_seq, lemma_field_seq_view, lemma_variant_seq_view, next_disamb};
use crate::strings::string_copy;
use vstd::string::StringSliceAdditionalSpecFns;

verus! {

/// Token of [`SimpleEnum`].
pub const SIMPLE_ENUM_TOKEN: u64 = 201;

/// Token of [`SimpleStructNamed`].
pub const SIMPLE_STRUCT_NAMED_TOKEN: u64 = 202;

/// Token of [`SimpleStructTuple`].
pub const SIMPLE_STRUCT_TUPLE_TOKEN: u64 = 203;

/// Token of [`SimpleStructUnit`].
pub const SIMPLE_STRUCT_UNIT_TOKEN: u64 = 204;

/// Token of [`StaticRecord`].
pub const STATIC_RECORD_TOKEN: u64 = 205;

/// Token of [`RecList`].
pub const REC_LIST_TOKEN: u64 = 206;

/// A unit struct: nothing on the wire, only a name in the description.
pub struct SimpleStructUnit;

/// A struct with one named string field.
pub struct SimpleStructNamed {
    pub some_str: String,
}

/// A tuple struct of a number and a string.
pub struct SimpleStructTuple(pub u32, pub String);

/// A sum over unit, tuple, named-field and nested-type variants.
pub enum SimpleEnum {
    WithUnit,
    TupleField(u32),
    NamedField { some_str: String },
    OtherUnit(SimpleStructUnit),
}

/// A record with a generic payload next to a fixed field.
pub struct GenericType<T> {
    pub test: T,
    pub field: u32,
}

/// A log-site record of static strings and a line number.
pub struct StaticRecord {
    pub file: String,
    pub line: u32,
    pub function: String,
    pub module: String,
}

/// A recursive list: each node carries a number and optionally a boxed
/// next node.  Describing it terminates because the registry hands the
/// second sighting of the token back without expanding the body again.
pub enum RecList {
    Nil,
    Cons(u32, Box<RecList>),
}

fn mk_variant_unit(name: &str) -> (r: (String, Struct))
    ensures
        r.0@ == name@,
        r.1.sv() == StructView::Unit,
{
    (string_copy(name), Struct::Unit)
}

fn mk_variant_tuple1(name: &str, d: Description) -> (r: (String, Struct))
    ensures
        r.0@ == name@,
        r.1.sv() == StructView::Tuple(seq![d.dv()]),
{
    let ghost dv = d.dv();
    let mut fields: Vec<Description> = Vec::new();
    fields.push(d);
    proof {
        lemma_dv_seq(fields@);
        assert(fields@[0].dv() == dv);
        assert(dv_seq(fields@) =~= seq![dv]);
    }
    (string_copy(name), Struct::Tuple(fields))
}

fn mk_variant_named1(name: &str, field_name: &str, d: Description) -> (r: (String, Struct))
    ensures
        r.0@ == name@,
        r.1.sv() == StructView::Named(seq![(field_name@, d.dv())]),
{
    let ghost dv = d.dv();
    let mut fields: Vec<(String, Description)> = Vec::new();
    fields.push((string_copy(field_name), d));
    proof {
        lemma_field_seq_view(fields@);
        assert(crate::field_seq_view(fields@)[0] == (fields@[0].0@, fields@[0].1.dv()));
        assert(crate::field_seq_view(fields@) =~= seq![(field_name@, dv)]);
    }
    (string_copy(name), Struct::Named(fields))
}

/// The expanded body of [`SimpleStructUnit`].
pub open spec fn simple_struct_unit_body() -> NamedView {
    NamedView::Struct(StructView::Unit)
}

impl LogpackType for SimpleStructUnit {
    open spec fn spec_describe(pre: RegistryView) -> (DescriptionView, RegistryView) {
        if pre.ids.contains_key(SIMPLE_STRUCT_UNIT_TOKEN) {
            (DescriptionView::ByName(pre.ids[SIMPLE_STRUCT_UNIT_TOKEN], None), pre)
        } else {
            let idv = ("SimpleStructUnit"@, next_disamb(pre.counts["SimpleStructUnit"@]));
            (
                DescriptionView::ByName(idv, Some(simple_struct_unit_body())),
                RegistryView {
                    ids: pre.ids.insert(SIMPLE_STRUCT_UNIT_TOKEN, idv),
                    counts: pre.counts.insert(
                        "SimpleStructUnit"@,
                        pre.counts["SimpleStructUnit"@] + 1,
                    ),
                },
            )
        }
    }

    open spec fn spec_token() -> u64 {
        SIMPLE_STRUCT_UNIT_TOKEN
    }

    fn type_token() -> (t: u64) {
        SIMPLE_STRUCT_UNIT_TOKEN
    }

    #[verifier::rlimit(100)]
    #[verifier::spinoff_prover]
    fn logpack_describe(seen: &mut SeenTypes) -> (d: Description) {
        let (first, id) = seen.make_name_for_id("SimpleStructUnit", SIMPLE_STRUCT_UNIT_TOKEN);
        if first {
            let body = Named::Struct(Struct::Unit);
            proof {
                assert(body.nv() == simple_struct_unit_body());
            }
            Description::ByName(id, Some(body))
        } else {
            Description::ByName(id, None)
        }
    }

    fn logpack_describe_by_value(&self, seen: &mut SeenTypes) -> (d: Description) {
        Self::logpack_describe(seen)
    }
}

/// Nothing on the wire for a unit struct.
impl Encoder for SimpleStructUnit {
    open spec fn wire(&self) -> Seq<u8> {
        Seq::empty()
    }

    open spec fn wire_ok(&self) -> bool {
        true
    }

    fn logpack_encode(&self, buf: &mut BufEncoder) -> (r: Result<(), (usize, usize)>) {
        proof {
            assert(buf.spec_content() =~= buf.spec_content() + Seq::<u8>::empty());
        }
        Ok(())
    }

    fn logpack_sizer(&self) -> (n: usize) {
        0
    }
}

/// The expanded body of [`SimpleStructNamed`].
pub open spec fn simple_struct_named_body() -> NamedView {
    NamedView::Struct(StructView::Named(seq![("some_str"@, DescriptionView::Str)]))
}

impl LogpackType for SimpleStructNamed {
    open spec fn spec_describe(pre: RegistryView) -> (DescriptionView, RegistryView) {
        if pre.ids.contains_key(SIMPLE_STRUCT_NAMED_TOKEN) {
            (DescriptionView::ByName(pre.ids[SIMPLE_STRUCT_NAMED_TOKEN], None), pre)
        } else {
            let idv = ("SimpleStructNamed"@, next_disamb(pre.counts["SimpleStructNamed"@]));
            (
                DescriptionView::ByName(idv, Some(simple_struct_named_body())),
                RegistryView {
                    ids: pre.ids.insert(SIMPLE_STRUCT_NAMED_TOKEN, idv),
                    counts: pre.counts.insert(
                        "SimpleStructNamed"@,
                        pre.counts["SimpleStructNamed"@] + 1,
                    ),
                },
            )
        }
    }

    open spec fn spec_token() -> u64 {
        SIMPLE_STRUCT_NAMED_TOKEN
    }

    fn type_token() -> (t: u64) {
        SIMPLE_STRUCT_NAMED_TOKEN
    }

    #[verifier::rlimit(100)]
    #[verifier::spinoff_prover]
    fn logpack_describe(seen: &mut SeenTypes) -> (d: Description) {
        let ghost pre = old(seen)@;
        let (first, id) = seen.make_name_for_id("SimpleStructNamed", SIMPLE_STRUCT_NAMED_TOKEN);
        if first {
            let (_vn, st) = mk_variant_named1("SimpleStructNamed", "some_str", Description::Str);
            let ghost stv = st.sv();
            let body = Named::Struct(st);
            proof {
                assert(body.nv() == NamedView::Struct(stv));
                assert(body.nv() == simple_struct_named_body());
            }
            let d = Description::ByName(id, Some(body));
            proof {
                let spec = Self::spec_describe(pre);
                assert(d.dv() == spec.0);
                assert(seen@ == spec.1);
            }
            d
        } else {
            Description::ByName(id, None)
        }
    }

    fn logpack_describe_by_value(&self, seen: &mut SeenTypes) -> (d: Description) {
        Self::logpack_describe(seen)
    }
}

/// One string field on the wire.
impl Encoder for SimpleStructNamed {
    open spec fn wire(&self) -> Seq<u8> {
        str_wire(vstd::utf8::encode_utf8(self.some_str@))
    }

    open spec fn wire_ok(&self) -> bool {
        str_len_ok(vstd::utf8::encode_utf8(self.some_str@).len())
    }

    fn logpack_encode(&self, buf: &mut BufEncoder) -> (r: Result<(), (usize, usize)>) {
        encode_stored_string(self.some_str.as_str(), buf)
    }

    fn logpack_sizer(&self) -> (n: usize) {
        encoded_string_len(self.some_str.as_str())
    }
}

/// The expanded body of [`SimpleStructTuple`].
pub open spec fn simple_struct_tuple_body() -> NamedView {
    NamedView::Struct(StructView::Tuple(seq![DescriptionView::U32, DescriptionView::Str]))
}

impl LogpackType for SimpleStructTuple {
    open spec fn spec_describe(pre: RegistryView) -> (DescriptionView, RegistryView) {
        if pre.ids.contains_key(SIMPLE_STRUCT_TUPLE_TOKEN) {
            (DescriptionView::ByName(pre.ids[SIMPLE_STRUCT_TUPLE_TOKEN], None), pre)
        } else {
            let idv = ("SimpleStructTuple"@, next_disamb(pre.counts["SimpleStructTuple"@]));
            (
                DescriptionView::ByName(idv, Some(simple_struct_tuple_body())),
                RegistryView {
                    ids: pre.ids.insert(SIMPLE_STRUCT_TUPLE_TOKEN, idv),
                    counts: pre.counts.insert(
                        "SimpleStructTuple"@,
                        pre.counts["SimpleStructTuple"@] + 1,
                    ),
                },
            )
        }
    }

    open spec fn spec_token() -> u64 {
        SIMPLE_STRUCT_TUPLE_TOKEN
    }

    fn type_token() -> (t: u64) {
        SIMPLE_STRUCT_TUPLE_TOKEN
    }

    #[verifier::rlimit(100)]
    #[verifier::spinoff_prover]
    fn logpack_describe(seen: &mut SeenTypes) -> (d: Description) {
        let (first, id) = seen.make_name_for_id("SimpleStructTuple", SIMPLE_STRUCT_TUPLE_TOKEN);
        if first {
            let mut fields: Vec<Description> = Vec::new();
            fields.push(Description::U32);
            fields.push(Description::Str);
            proof {
                lemma_dv_seq(fields@);
                assert(fields@[0].dv() == DescriptionView::U32);
                assert(fields@[1].dv() == DescriptionView::Str);
                assert(dv_seq(fields@) =~= seq![DescriptionView::U32, DescriptionView::Str]);
            }
            let ghost fv = dv_seq(fields@);
            let body = Named::Struct(Struct::Tuple(fields));
            proof {
                assert(body.nv() == NamedView::Struct(StructView::Tuple(fv)));
                assert(body.nv() == simple_struct_tuple_body());
            }
            Description::ByName(id, Some(body))
        } else {
            Description::ByName(id, None)
        }
    }

    fn logpack_describe_by_value(&self, seen: &mut SeenTypes) -> (d: Description) {
        Self::logpack_describe(seen)
    }
}

/// A number then a string on the wire.
impl Encoder for SimpleStructTuple {
    open spec fn wire(&self) -> Seq<u8> {
        le_bytes(self.0 as nat, 4) + str_wire(vstd::utf8::encode_utf8(self.1@))
    }

    open spec fn wire_ok(&self) -> bool {
        str_len_ok(vstd::utf8::encode_utf8(self.1@).len())
    }

    fn logpack_encode(&self, buf: &mut BufEncoder) -> (r: Result<(), (usize, usize)>) {
        proof {
            crate::wire::lemma_le_bytes_len(self.0 as nat, 4);
        }
        if let Err(e) = buf.put_u32(self.0) {
            return Err(e);
        }
        match encode_stored_string(self.1.as_str(), buf) {
            Ok(()) => {
                proof {
                    assert(buf.spec_content() =~= old(buf).spec_content() + self.wire());
                }
                Ok(())
            },
            Err(e) => Err(e),
        }
    }

    fn logpack_sizer(&self) -> (n: usize) {
        proof {
            crate::wire::lemma_le_bytes_len(self.0 as nat, 4);
        }
        4 + encoded_string_len(self.1.as_str())
    }
}

/// The body of [`SimpleEnum`], with its view pinned; the nested-type
/// variant's field description is handed in.
#[verifier::rlimit(100)]
#[verifier::spinoff_prover]
fn mk_simple_enum_body(ssu: Description) -> (body: Named)
    ensures
        body.nv() == simple_enum_body(ssu.dv()),
{
    let ghost ssu_v = ssu.dv();
    let v0 = mk_variant_unit("WithUnit");
    let v1 = mk_variant_tuple1("TupleField", Description::U32);
    let v2 = mk_variant_named1("NamedField", "some_str", Description::Str);
    let v3 = mk_variant_tuple1("OtherUnit", ssu);
    let mut vars: Vec<(String, Struct)> = Vec::new();
    vars.push(v0);
    vars.push(v1);
    vars.push(v2);
    vars.push(v3);
    proof {
        lemma_variant_seq_view(vars@);
        assert(vars@[0].0@ == "WithUnit"@ && vars@[0].1.sv() == StructView::Unit);
        assert(vars@[1].0@ == "TupleField"@);
        assert(vars@[2].0@ == "NamedField"@);
        assert(vars@[3].0@ == "OtherUnit"@);
        assert(crate::variant_seq_view(vars@) =~= simple_enum_body(ssu_v)->Enum_0);
    }
    let ghost vv = crate::variant_seq_view(vars@);
    let body = Named::Enum(vars);
    proof {
        assert(body.nv() == NamedView::Enum(vv));
        assert(body.nv() == simple_enum_body(ssu_v));
    }
    body
}

/// The expanded body of [`SimpleEnum`], given the description its
/// nested-type variant field resolves to.
pub open spec fn simple_enum_body(ssu: DescriptionView) -> NamedView {
    NamedView::Enum(
        seq![
            ("WithUnit"@, StructView::Unit),
            ("TupleField"@, StructView::Tuple(seq![DescriptionView::U32])),
            ("NamedField"@, StructView::Named(seq![("some_str"@, DescriptionView::Str)])),
            ("OtherUnit"@, StructView::Tuple(seq![ssu])),
        ],
    )
}

impl LogpackType for SimpleEnum {
    open spec fn spec_describe(pre: RegistryView) -> (DescriptionView, RegistryView) {
        if pre.ids.contains_key(SIMPLE_ENUM_TOKEN) {
            (DescriptionView::ByName(pre.ids[SIMPLE_ENUM_TOKEN], None), pre)
        } else {
            let idv = ("SimpleEnum"@, next_disamb(pre.counts["SimpleEnum"@]));
            let m1 = RegistryView {
                ids: pre.ids.insert(SIMPLE_ENUM_TOKEN, idv),
                counts: pre.counts.insert("SimpleEnum"@, pre.counts["SimpleEnum"@] + 1),
            };
            let (ssu, m2) = SimpleStructUnit::spec_describe(m1);
            (DescriptionView::ByName(idv, Some(simple_enum_body(ssu))), m2)
        }
    }

    open spec fn spec_token() -> u64 {
        SIMPLE_ENUM_TOKEN
    }

    fn type_token() -> (t: u64) {
        SIMPLE_ENUM_TOKEN
    }

    #[verifier::rlimit(100)]
    #[verifier::spinoff_prover]
    fn logpack_describe(seen: &mut SeenTypes) -> (d: Description) {
        let ghost pre = old(seen)@;
        let (first, id) = seen.make_name_for_id("SimpleEnum", SIMPLE_ENUM_TOKEN);
        if first {
            let ghost m1 = seen@;
            proof {
                assert(m1 == RegistryView {
                    ids: pre.ids.insert(SIMPLE_ENUM_TOKEN, id_view(id)),
                    counts: pre.counts.insert("SimpleEnum"@, pre.counts["SimpleEnum"@] + 1),
                });
            }
            let ssu = SimpleStructUnit::logpack_describe(seen);
            let body = mk_simple_enum_body(ssu);
            let d = Description::ByName(id, Some(body));
            proof {
                let spec = Self::spec_describe(pre);
                assert(ssu.dv() == SimpleStructUnit::spec_describe(m1).0);
                assert(seen@ == SimpleStructUnit::spec_describe(m1).1);
                assert(d.dv() == spec.0);
                assert(seen@ == spec.1);
            }
            d
        } else {
            Description::ByName(id, None)
        }
    }

    fn logpack_describe_by_value(&self, seen: &mut SeenTypes) -> (d: Description) {
        Self::logpack_describe(seen)
    }
}

/// The tag, then the chosen variant's payload.
impl Encoder for SimpleEnum {
    open spec fn wire(&self) -> Seq<u8> {
        match self {
            SimpleEnum::WithUnit => seq![0u8],
            SimpleEnum::TupleField(v) => seq![1u8] + le_bytes(*v as nat, 4),
            SimpleEnum::NamedField { some_str } => seq![2u8] + str_wire(
                vstd::utf8::encode_utf8(some_str@),
            ),
            SimpleEnum::OtherUnit(_) => seq![3u8],
        }
    }

    open spec fn wire_ok(&self) -> bool {
        match self {
            SimpleEnum::NamedField { some_str } => str_len_ok(
                vstd::utf8::encode_utf8(some_str@).len(),
            ),
            _ => true,
        }
    }

    fn logpack_encode(&self, buf: &mut BufEncoder) -> (r: Result<(), (usize, usize)>) {
        match self {
            SimpleEnum::WithUnit => buf.put_u8(0),
            SimpleEnum::TupleField(v) => {
                proof {
                    crate::wire::lemma_le_bytes_len(*v as nat, 4);
                }
                if let Err(e) = buf.put_u8(1) {
                    return Err(e);
                }
                match buf.put_u32(*v) {
                    Ok(()) => {
                        proof {
                            assert(buf.spec_content() =~= old(buf).spec_content() + self.wire());
                        }
                        Ok(())
                    },
                    Err(e) => Err(e),
                }
            },
            SimpleEnum::NamedField { some_str } => {
                if let Err(e) = buf.put_u8(2) {
                    return Err(e);
                }
                match encode_stored_string(some_str.as_str(), buf) {
                    Ok(()) => {
                        proof {
                            assert(buf.spec_content() =~= old(buf).spec_content() + self.wire());
                        }
                        Ok(())
                    },
                    Err(e) => Err(e),
                }
            },
            SimpleEnum::OtherUnit(_) => buf.put_u8(3),
        }
    }

    fn logpack_sizer(&self) -> (n: usize) {
        match self {
            SimpleEnum::WithUnit => 1,
            SimpleEnum::TupleField(v) => {
                proof {
                    crate::wire::lemma_le_bytes_len(*v as nat, 4);
                }
                5
            },
            SimpleEnum::NamedField { some_str } => 1 + encoded_string_len(some_str.as_str()),
            SimpleEnum::OtherUnit(_) => 1,
        }
    }
}

/// The body of [`StaticRecord`], with its view pinned.
#[verifier::rlimit(100)]
#[verifier::spinoff_prover]
fn mk_static_record_body() -> (body: Named)
    ensures
        body.nv() == static_record_body(),
{
    let mut fields: Vec<(String, Description)> = Vec::new();
    fields.push((string_copy("file"), Description::Str));
    fields.push((string_copy("line"), Description::U32));
    fields.push((string_copy("function"), Description::Str));
    fields.push((string_copy("module"), Description::Str));
    proof {
        lemma_field_seq_view(fields@);
        assert(fields@[0].0@ == "file"@ && fields@[0].1.dv() == DescriptionView::Str);
        assert(fields@[1].0@ == "line"@ && fields@[1].1.dv() == DescriptionView::U32);
        assert(fields@[2].0@ == "function"@ && fields@[2].1.dv() == DescriptionView::Str);
        assert(fields@[3].0@ == "module"@ && fields@[3].1.dv() == DescriptionView::Str);
        assert(crate::field_seq_view(fields@) =~= static_record_body()->Struct_0->Named_0);
    }
    let ghost fv = crate::field_seq_view(fields@);
    let body = Named::Struct(Struct::Named(fields));
    proof {
        assert(body.nv() == NamedView::Struct(StructView::Named(fv)));
        assert(body.nv() == static_record_body());
    }
    body
}

/// The expanded body of [`StaticRecord`].
pub open spec fn static_record_body() -> NamedView {
    NamedView::Struct(
        StructView::Named(
            seq![
                ("file"@, DescriptionView::Str),
                ("line"@, DescriptionView::U32),
                ("function"@, DescriptionView::Str),
                ("module"@, DescriptionView::Str),
            ],
        ),
    )
}

impl LogpackType for StaticRecord {
    open spec fn spec_describe(pre: RegistryView) -> (DescriptionView, RegistryView) {
        if pre.ids.contains_key(STATIC_RECORD_TOKEN) {
            (DescriptionView::ByName(pre.ids[STATIC_RECORD_TOKEN], None), pre)
        } else {
            let idv = ("StaticRecord"@, next_disamb(pre.counts["StaticRecord"@]));
            (
                DescriptionView::ByName(idv, Some(static_record_body())),
                RegistryView {
                    ids: pre.ids.insert(STATIC_RECORD_TOKEN, idv),
                    counts: pre.counts.insert("StaticRecord"@, pre.counts["StaticRecord"@] + 1),
                },
            )
        }
    }

    open spec fn spec_token() -> u64 {
        STATIC_RECORD_TOKEN
    }

    fn type_token() -> (t: u64) {
        STATIC_RECORD_TOKEN
    }

    #[verifier::rlimit(100)]
    #[verifier::spinoff_prover]
    fn logpack_describe(seen: &mut SeenTypes) -> (d: Description) {
        let (first, id) = seen.make_name_for_id("StaticRecord", STATIC_RECORD_TOKEN);
        if first {
            let body = mk_static_record_body();
            Description::ByName(id, Some(body))
        } else {
            Description::ByName(id, None)
        }
    }

    fn logpack_describe_by_value(&self, seen: &mut SeenTypes) -> (d: Description) {
        Self::logpack_describe(seen)
    }
}

/// The four fields back to back: three strings and a number.
impl Encoder for StaticRecord {
    open spec fn wire(&self) -> Seq<u8> {
        str_wire(vstd::utf8::encode_utf8(self.file@)) + le_bytes(self.line as nat, 4) + str_wire(
            vstd::utf8::encode_utf8(self.function@),
        ) + str_wire(vstd::utf8::encode_utf8(self.module@))
    }

    open spec fn wire_ok(&self) -> bool {
        &&& str_len_ok(vstd::utf8::encode_utf8(self.file@).len())
        &&& str_len_ok(vstd::utf8::encode_utf8(self.function@).len())
        &&& str_len_ok(vstd::utf8::encode_utf8(self.module@).len())
    }

    #[verifier::rlimit(100)]
    #[verifier::spinoff_prover]
    fn logpack_encode(&self, buf: &mut BufEncoder) -> (r: Result<(), (usize, usize)>) {
        proof {
            crate::wire::lemma_le_bytes_len(self.line as nat, 4);
        }
        if let Err(e) = encode_stored_string(self.file.as_str(), buf) {
            return Err(e);
        }
        if let Err(e) = buf.put_u32(self.line) {
            proof {
                assert(old(buf).spec_remaining() < self.wire().len());
            }
            return Err(e);
        }
        if let Err(e) = encode_stored_string(self.function.as_str(), buf) {
            proof {
                assert(old(buf).spec_remaining() < self.wire().len());
            }
            return Err(e);
        }
        match encode_stored_string(self.module.as_str(), buf) {
            Ok(()) => {
                proof {
                    assert(buf.spec_content() =~= old(buf).spec_content() + self.wire());
                }
                Ok(())
            },
            Err(e) => Err(e),
        }
    }

    fn logpack_sizer(&self) -> (n: usize) {
        proof {
            crate::wire::lemma_le_bytes_len(self.line as nat, 4);
        }
        let a = encoded_string_len(self.file.as_str());
        let b = encoded_string_len(self.function.as_str());
        let c = encoded_string_len(self.module.as_str());
        a + 4 + b + c
    }
}

/// The payload, then the fixed field.
impl<T: Encoder> Encoder for GenericType<T> {
    open spec fn wire(&self) -> Seq<u8> {
        self.test.wire() + le_bytes(self.field as nat, 4)
    }

    open spec fn wire_ok(&self) -> bool {
        self.test.wire_ok()
    }

    fn logpack_encode(&self, buf: &mut BufEncoder) -> (r: Result<(), (usize, usize)>) {
        proof {
            crate::wire::lemma_le_bytes_len(self.field as nat, 4);
        }
        if let Err(e) = self.test.logpack_encode(buf) {
            return Err(e);
        }
        match buf.put_u32(self.field) {
            Ok(()) => {
                proof {
                    assert(buf.spec_content() =~= old(buf).spec_content() + self.wire());
                }
                Ok(())
            },
            Err(e) => Err(e),
        }
    }

    fn logpack_sizer(&self) -> (n: usize) {
        proof {
            crate::wire::lemma_le_bytes_len(self.field as nat, 4);
        }
        self.test.logpack_sizer() + 4
    }
}

/// The expanded body of [`RecList`]: a sum whose second variant refers
/// back to the list type itself.
pub open spec fn rec_list_body(selfref: DescriptionView) -> NamedView {
    NamedView::Enum(
        seq![
            ("Nil"@, StructView::Unit),
            ("Cons"@, StructView::Tuple(seq![DescriptionView::U32, selfref])),
        ],
    )
}

/// The body of [`RecList`], with its view pinned.
#[verifier::rlimit(100)]
#[verifier::spinoff_prover]
fn mk_rec_list_body(selfref: Description) -> (body: Named)
    ensures
        body.nv() == rec_list_body(selfref.dv()),
{
    let ghost sv = selfref.dv();
    let v0 = mk_variant_unit("Nil");
    let mut fields: Vec<Description> = Vec::new();
    fields.push(Description::U32);
    fields.push(selfref);
    proof {
        lemma_dv_seq(fields@);
        assert(fields@[0].dv() == DescriptionView::U32);
        assert(fields@[1].dv() == sv);
        assert(dv_seq(fields@) =~= seq![DescriptionView::U32, sv]);
    }
    let v1 = (string_copy("Cons"), Struct::Tuple(fields));
    let mut vars: Vec<(String, Struct)> = Vec::new();
    vars.push(v0);
    vars.push(v1);
    proof {
        lemma_variant_seq_view(vars@);
        assert(vars@[0].0@ == "Nil"@ && vars@[0].1.sv() == StructView::Unit);
        assert(vars@[1].0@ == "Cons"@);
        assert(crate::variant_seq_view(vars@) =~= rec_list_body(sv)->Enum_0);
    }
    let ghost vv = crate::variant_seq_view(vars@);
    let body = Named::Enum(vars);
    proof {
        assert(body.nv() == NamedView::Enum(vv));
        assert(body.nv() == rec_list_body(sv));
    }
    body
}

/// Describing the recursive list terminates: the body is expanded once,
/// and the self-reference inside it comes back as a bare name because
/// the registry already holds the token by then.
impl LogpackType for RecList {
    open spec fn spec_describe(pre: RegistryView) -> (DescriptionView, RegistryView)
        decreases (if pre.ids.contains_key(REC_LIST_TOKEN) {
            0int
        } else {
            1int
        }),
    {
        if pre.ids.contains_key(REC_LIST_TOKEN) {
            (DescriptionView::ByName(pre.ids[REC_LIST_TOKEN], None), pre)
        } else {
            let idv = ("RecList"@, next_disamb(pre.counts["RecList"@]));
            let m1 = RegistryView {
                ids: pre.ids.insert(REC_LIST_TOKEN, idv),
                counts: pre.counts.insert("RecList"@, pre.counts["RecList"@] + 1),
            };
            let (selfref, m2) = Self::spec_describe(m1);
            (DescriptionView::ByName(idv, Some(rec_list_body(selfref))), m2)
        }
    }

    open spec fn spec_token() -> u64 {
        REC_LIST_TOKEN
    }

    fn type_token() -> (t: u64) {
        REC_LIST_TOKEN
    }

    #[verifier::rlimit(100)]
    #[verifier::spinoff_prover]
    fn logpack_describe(seen: &mut SeenTypes) -> (d: Description)
        decreases (if old(seen)@.ids.contains_key(REC_LIST_TOKEN) {
            0int
        } else {
            1int
        }),
    {
        let (first, id) = seen.make_name_for_id("RecList", REC_LIST_TOKEN);
        if first {
            let selfref = Self::logpack_describe(seen);
            let body = mk_rec_list_body(selfref);
            Description::ByName(id, Some(body))
        } else {
            Description::ByName(id, None)
        }
    }

    fn logpack_describe_by_value(&self, seen: &mut SeenTypes) -> (d: Description) {
        Self::logpack_describe(seen)
    }
}

/// The wire image of a list: tags and numbers down the spine.
pub open spec fn rec_list_wire(l: RecList) -> Seq<u8>
    decreases l,
{
    match l {
        RecList::Nil => seq![0u8],
        RecList::Cons(v, rest) => seq![1u8] + le_bytes(v as nat, 4) + rec_list_wire(*rest),
    }
}

/// Encode a list node by node.
fn rec_list_encode(l: &RecList, buf: &mut BufEncoder) -> (r: Result<(), (usize, usize)>)
    requires
        old(buf).wf(),
    ensures
        final(buf).wf(),
        final(buf).spec_len() == old(buf).spec_len(),
        final(buf).spec_pos() >= old(buf).spec_pos(),
        r is Ok <==> old(buf).spec_remaining() >= rec_list_wire(*l).len(),
        r is Ok ==> BufEncoder::wrote(*old(buf), *final(buf), rec_list_wire(*l)),
    decreases *l,
{
    match l {
        RecList::Nil => buf.put_u8(0),
        RecList::Cons(v, rest) => {
            proof {
                crate::wire::lemma_le_bytes_len(*v as nat, 4);
            }
            if let Err(e) = buf.put_u8(1) {
                return Err(e);
            }
            if let Err(e) = buf.put_u32(*v) {
                proof {
                    assert(old(buf).spec_remaining() < rec_list_wire(*l).len());
                }
                return Err(e);
            }
            match rec_list_encode(rest, buf) {
                Ok(()) => {
                    proof {
                        assert(buf.spec_content() =~= old(buf).spec_content() + rec_list_wire(*l));
                    }
                    Ok(())
                },
                Err(e) => Err(e),
            }
        },
    }
}

/// Predict a list's wire size node by node.
fn rec_list_sizer(l: &RecList) -> (n: usize)
    requires
        rec_list_wire(*l).len() <= usize::MAX,
    ensures
        n == rec_list_wire(*l).len(),
    decreases *l,
{
    match l {
        RecList::Nil => 1,
        RecList::Cons(v, rest) => {
            proof {
                crate::wire::lemma_le_bytes_len(*v as nat, 4);
            }
            5 + rec_list_sizer(rest)
        },
    }
}

/// The tag, then for a node its number and the encoded tail.
impl Encoder for RecList {
    open spec fn wire(&self) -> Seq<u8> {
        rec_list_wire(*self)
    }

    open spec fn wire_ok(&self) -> bool {
        true
    }

    fn logpack_encode(&self, buf: &mut BufEncoder) -> (r: Result<(), (usize, usize)>) {
        rec_list_encode(self, buf)
    }

    fn logpack_sizer(&self) -> (n: usize) {
        rec_list_sizer(self)
    }
}

/// Named de-duplication: once a type's token is in the registry, every
/// further description of it is a bare reference — the expanded body is
/// shipped at most once per producer session.
pub proof fn lemma_body_shipped_at_most_once(pre: RegistryView)
    ensures
        pre.ids.contains_key(SIMPLE_ENUM_TOKEN) ==> SimpleEnum::spec_describe(pre)
            == (DescriptionView::ByName(pre.ids[SIMPLE_ENUM_TOKEN], None), pre),
        pre.ids.contains_key(SIMPLE_STRUCT_NAMED_TOKEN) ==> SimpleStructNamed::spec_describe(pre)
            == (DescriptionView::ByName(pre.ids[SIMPLE_STRUCT_NAMED_TOKEN], None), pre),
        pre.ids.contains_key(SIMPLE_STRUCT_TUPLE_TOKEN) ==> SimpleStructTuple::spec_describe(pre)
            == (DescriptionView::ByName(pre.ids[SIMPLE_STRUCT_TUPLE_TOKEN], None), pre),
        pre.ids.contains_key(SIMPLE_STRUCT_UNIT_TOKEN) ==> SimpleStructUnit::spec_describe(pre)
            == (DescriptionView::ByName(pre.ids[SIMPLE_STRUCT_UNIT_TOKEN], None), pre),
        pre.ids.contains_key(STATIC_RECORD_TOKEN) ==> StaticRecord::spec_describe(pre)
            == (DescriptionView::ByName(pre.ids[STATIC_RECORD_TOKEN], None), pre),
        pre.ids.contains_key(REC_LIST_TOKEN) ==> RecList::spec_describe(pre)
            == (DescriptionView::ByName(pre.ids[REC_LIST_TOKEN], None), pre),
{
}

} // verus!
