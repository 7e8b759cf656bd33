//! A plain textual renderer for the decoder's event stream.
//!
//! [`Repr`] implements the visitor contract by appending text to an owned
//! output string: numbers in decimal, strings quoted and escaped, enum
//! variants by name (optionally qualified with the type name), struct
//! fields as `name: value`, and the usual bracketing for tuples, arrays
//! and slices.  The exact text, character for character, is given by
//! [`spec_render`] over the events the renderer has heard; the type
//! invariant of [`Repr`] ties its output to that function at all times.

use vstd::prelude::*;

use crate::decoder::{Callbacks, Event};
use crate::TypeNameId;
use vstd::string::StrSliceExecFns;
use vstd::string::StringExecFns;

verus! {

/// Relies on String::push: it appends exactly the given character.
#[verifier::external_body]
pub(crate) fn push_char(s: &mut String, c: char)
    ensures
        final(s)@ == old(s)@.push(c),
    no_unwind
{
    s.push(c);
}

/// Relies on String::push_str: it appends exactly the given characters.
#[verifier::external_body]
pub(crate) fn push_str(s: &mut String, piece: &str)
    ensures
        final(s)@ == old(s)@ + piece@,
    no_unwind
{
    s.push_str(piece);
}

/// The decimal digit character for a value below ten.
pub open spec fn digit_char(d: nat) -> char {
    if d == 0 {
        '0'
    } else if d == 1 {
        '1'
    } else if d == 2 {
        '2'
    } else if d == 3 {
        '3'
    } else if d == 4 {
        '4'
    } else if d == 5 {
        '5'
    } else if d == 6 {
        '6'
    } else if d == 7 {
        '7'
    } else if d == 8 {
        '8'
    } else {
        '9'
    }
}

/// The decimal digits of a number, most significant first, with no
/// leading zeros (zero itself is the single digit 0).
pub open spec fn dec_digits(n: nat) -> Seq<char>
    decreases n,
{
    if n < 10 {
        seq![digit_char(n)]
    } else {
        dec_digits(n / 10).push(digit_char(n % 10))
    }
}

/// A signed number in decimal: a minus sign before the magnitude.
pub open spec fn int_digits(v: int) -> Seq<char> {
    if v < 0 {
        seq!['-'] + dec_digits((-v) as nat)
    } else {
        dec_digits(v as nat)
    }
}

fn digit_exec(d: u64) -> (c: char)
    requires
        d < 10,
    ensures
        c == digit_char(d as nat),
{
    if d == 0 {
        '0'
    } else if d == 1 {
        '1'
    } else if d == 2 {
        '2'
    } else if d == 3 {
        '3'
    } else if d == 4 {
        '4'
    } else if d == 5 {
        '5'
    } else if d == 6 {
        '6'
    } else if d == 7 {
        '7'
    } else if d == 8 {
        '8'
    } else {
        '9'
    }
}

/// A number rendered in decimal.
pub fn u64_to_string(v: u64) -> (r: String)
    ensures
        r@ == dec_digits(v as nat),
    decreases v,
{
    if v < 10 {
        let mut s = String::new();
        push_char(&mut s, digit_exec(v));
        proof {
            assert(Seq::<char>::empty().push(digit_char(v as nat)) =~= seq![digit_char(v as nat)]);
        }
        s
    } else {
        let mut s = u64_to_string(v / 10);
        push_char(&mut s, digit_exec(v % 10));
        s
    }
}

/// A signed number rendered in decimal.
pub fn i64_to_string(v: i64) -> (r: String)
    ensures
        r@ == int_digits(v as int),
{
    if v >= 0 {
        u64_to_string(v as u64)
    } else {
        let m: u64 = (-(v as i128)) as u64;
        let digits = u64_to_string(m);
        let mut s = String::new();
        push_char(&mut s, '-');
        s.append(digits.as_str());
        proof {
            assert(Seq::<char>::empty().push('-') =~= seq!['-']);
        }
        s
    }
}

/// How one character appears inside a quoted string: quotes and
/// backslashes are escaped, as are newline, carriage return and tab;
/// every other character stands for itself.
pub open spec fn escaped_char(c: char) -> Seq<char> {
    if c == '"' {
        seq!['\\', '"']
    } else if c == '\\' {
        seq!['\\', '\\']
    } else if c == '\n' {
        seq!['\\', 'n']
    } else if c == '\r' {
        seq!['\\', 'r']
    } else if c == '\t' {
        seq!['\\', 't']
    } else {
        seq![c]
    }
}

/// A character sequence with every character escaped.
pub open spec fn escaped(s: Seq<char>) -> Seq<char>
    decreases s,
{
    if s.len() == 0 {
        Seq::empty()
    } else {
        escaped_char(s[0]) + escaped(s.subrange(1, s.len() as int))
    }
}

/// A string as it appears in rendered output: quoted and escaped.
pub open spec fn quoted(s: Seq<char>) -> Seq<char> {
    seq!['"'] + escaped(s) + seq!['"']
}

/// Escaping one more character appends its escape.
proof fn lemma_escaped_push(t: Seq<char>, c: char)
    ensures
        escaped(t.push(c)) == escaped(t) + escaped_char(c),
    decreases t.len(),
{
    if t.len() == 0 {
        assert(t.push(c)[0] == c);
        assert(t.push(c).subrange(1, 1) =~= t);
        assert(escaped(t.push(c)) =~= escaped(t) + escaped_char(c));
    } else {
        let t2 = t.subrange(1, t.len() as int);
        assert(t.push(c).subrange(1, t.len() as int + 1) =~= t2.push(c));
        lemma_escaped_push(t2, c);
        assert(t.push(c)[0] == t[0]);
        assert(escaped(t.push(c)) =~= escaped(t) + escaped_char(c));
    }
}

/// Append the escaped form of a string to the output.
fn escape_into(out: &mut String, s: &str)
    ensures
        final(out)@ == old(out)@ + escaped(s@),
{
    let n = s.unicode_len();
    let mut i: usize = 0;
    while i < n
        invariant
            n == s@.len(),
            i <= n,
            out@ == old(out)@ + escaped(s@.take(i as int)),
        decreases n - i,
    {
        let c = s.get_char(i);
        proof {
            assert(s@.take(i as int + 1) =~= s@.take(i as int).push(c));
            lemma_escaped_push(s@.take(i as int), c);
        }
        if c == '"' {
            push_char(out, '\\');
            push_char(out, '"');
        } else if c == '\\' {
            push_char(out, '\\');
            push_char(out, '\\');
        } else if c == '\n' {
            push_char(out, '\\');
            push_char(out, 'n');
        } else if c == '\r' {
            push_char(out, '\\');
            push_char(out, 'r');
        } else if c == '\t' {
            push_char(out, '\\');
            push_char(out, 't');
        } else {
            push_char(out, c);
        }
        proof {
            assert(out@ =~= old(out)@ + escaped(s@.take(i as int + 1)));
        }
        i = i + 1;
    }
    proof {
        assert(s@.take(n as int) =~= s@);
    }
}

/// The text one event contributes to the plain rendering.
pub open spec fn event_text(enum_names: bool, e: Event) -> Seq<char> {
    match e {
        Event::U8(v) => dec_digits(v as nat),
        Event::U16(v) => dec_digits(v as nat),
        Event::U32(v) => dec_digits(v as nat),
        Event::U64(v) => dec_digits(v as nat),
        Event::I8(v) => int_digits(v as int),
        Event::I16(v) => int_digits(v as int),
        Event::I32(v) => int_digits(v as int),
        Event::I64(v) => int_digits(v as int),
        Event::Bool(v) => if v {
            "true"@
        } else {
            "false"@
        },
        Event::Str(s) => quoted(s),
        Event::Unit => "()"@,
        Event::Phantom => "PhantomData"@,
        Event::BeginEnum(id, name) => if enum_names {
            id.0 + "::"@ + name
        } else {
            name
        },
        Event::EndEnum(_) => Seq::empty(),
        Event::OptionNone => "None"@,
        Event::OptionSome => "Some("@,
        Event::OptionEnd => ")"@,
        Event::ResultOk => "Ok("@,
        Event::ResultErr => "Err("@,
        Event::ResultEnd => ")"@,
        Event::StructUnit(oid) => match oid {
            Some(id) => id.0,
            None => Seq::empty(),
        },
        Event::BeginStructNamed(oid) => (match oid {
            Some(id) => id.0,
            None => Seq::empty(),
        }) + "("@,
        Event::BeginNamedField(i, name) => (if i != 0 {
            ", "@
        } else {
            Seq::empty()
        }) + name + ": "@,
        Event::EndNamedField => Seq::empty(),
        Event::EndStructNamed => ")"@,
        Event::BeginStructTuple(oid) => (match oid {
            Some(id) => id.0,
            None => Seq::empty(),
        }) + "("@,
        Event::BeginTupleField(i) => if i != 0 {
            ", "@
        } else {
            Seq::empty()
        },
        Event::EndTupleField => Seq::empty(),
        Event::EndStructTuple => ")"@,
        Event::BeginTuple(_) => "("@,
        Event::BeginTupleItem(i) => if i != 0 {
            ", "@
        } else {
            Seq::empty()
        },
        Event::EndTupleItem => Seq::empty(),
        Event::EndTuple => ")"@,
        Event::BeginArray(_) => "["@,
        Event::BeginArrayItem(i) => if i != 0 {
            ", "@
        } else {
            Seq::empty()
        },
        Event::EndArrayItem => Seq::empty(),
        Event::EndArray => "]"@,
        Event::BeginSlice(_) => "["@,
        Event::BeginSliceItem(i) => if i != 0 {
            ", "@
        } else {
            Seq::empty()
        },
        Event::EndSliceItem => Seq::empty(),
        Event::EndSlice => "]"@,
    }
}

/// The full plain rendering of an event stream: the concatenation of
/// each event's text, in order.
pub open spec fn spec_render(enum_names: bool, evs: Seq<Event>) -> Seq<char>
    decreases evs,
{
    if evs.len() == 0 {
        Seq::empty()
    } else {
        event_text(enum_names, evs[0]) + spec_render(enum_names, evs.subrange(1, evs.len() as int))
    }
}

/// One more event appends exactly its text.
pub proof fn lemma_render_push(enum_names: bool, evs: Seq<Event>, e: Event)
    ensures
        spec_render(enum_names, evs.push(e)) == spec_render(enum_names, evs) + event_text(
            enum_names,
            e,
        ),
    decreases evs.len(),
{
    if evs.len() == 0 {
        assert(evs.push(e)[0] == e);
        assert(evs.push(e).subrange(1, 1) =~= evs);
        assert(spec_render(enum_names, evs.push(e)) =~= spec_render(enum_names, evs) + event_text(
            enum_names,
            e,
        ));
    } else {
        let t2 = evs.subrange(1, evs.len() as int);
        assert(evs.push(e).subrange(1, evs.len() as int + 1) =~= t2.push(e));
        lemma_render_push(enum_names, t2, e);
        assert(evs.push(e)[0] == evs[0]);
        assert(spec_render(enum_names, evs.push(e)) =~= spec_render(enum_names, evs) + event_text(
            enum_names,
            e,
        ));
    }
}

/// The renderer's working state: the text built so far, the variant
/// qualification flag, and the ghost record of the events heard.
struct ReprState {
    output: String,
    enum_names: bool,
    events: Ghost<Seq<Event>>,
}

/// The plain renderer: a visitor that accumulates the textual form of
/// everything it hears into an owned string.
pub struct Repr {
    st: ReprState,
}

impl Repr {
    /// The output is always exactly the rendering of the events heard.
    #[verifier::type_invariant]
    pub closed spec fn inv(self) -> bool {
        self.st.output@ == spec_render(self.st.enum_names, self.st.events@)
    }

    /// Whether enum variants are qualified with their type's name; this
    /// is the renderer's configuration in the visitor contract's sense,
    /// so it survives any decode.
    pub closed spec fn spec_enum_names(&self) -> bool {
        self.st.enum_names
    }

    /// The qualification flag is the renderer's whole configuration.
    pub proof fn lemma_config_is_enum_names(&self)
        ensures
            crate::decoder::Callbacks::config(self) == self.spec_enum_names(),
    {
    }

    pub fn new() -> (r: Repr)
        ensures
            r.events() == Seq::<Event>::empty(),
            !r.spec_enum_names(),
    {
        Repr {
            st: ReprState { output: String::new(), enum_names: false, events: Ghost(Seq::empty()) },
        }
    }

    /// Qualify enum variants as `TypeName::Variant`; configure this
    /// before any event arrives.
    pub fn with_enum_names(self) -> (r: Repr)
        requires
            self.events() == Seq::<Event>::empty(),
        ensures
            r.events() == Seq::<Event>::empty(),
            r.spec_enum_names(),
    {
        proof {
            use_type_invariant(&self);
        }
        let Repr { st } = self;
        let ReprState { output, enum_names: _, events } = st;
        Repr { st: ReprState { output, enum_names: true, events } }
    }

    /// Hand the rendered text over.
    pub fn into_output(self) -> (r: String)
        ensures
            r@ == spec_render(self.spec_enum_names(), self.events()),
    {
        proof {
            use_type_invariant(&self);
        }
        let Repr { st } = self;
        let ReprState { output, enum_names: _, events: _ } = st;
        output
    }

    /// Take the state out, leaving an empty renderer behind.
    fn take_state(&mut self) -> (st: ReprState)
        ensures
            st == old(self).st,
            old(self).inv(),
            st.output@ == spec_render(st.enum_names, st.events@),
    {
        proof {
            use_type_invariant(&*self);
        }
        let mut st = ReprState {
            output: String::new(),
            enum_names: false,
            events: Ghost(Seq::empty()),
        };
        core::mem::swap(&mut st, &mut self.st);
        st
    }
}

impl Callbacks for Repr {
    type Config = bool;

    closed spec fn events(&self) -> Seq<Event> {
        self.st.events@
    }

    closed spec fn config(&self) -> bool {
        self.st.enum_names
    }

    fn handle_u8(&mut self, v: u8) {
        let mut st = self.take_state();
        let ghost evs = st.events@;
        let s = u64_to_string(v as u64);
        push_str(&mut st.output, s.as_str());
        st.events = Ghost(evs.push(Event::U8(v)));
        proof {
            lemma_render_push(st.enum_names, evs, Event::U8(v));
        }
        self.st = st;
    }

    fn handle_u16(&mut self, v: u16) {
        let mut st = self.take_state();
        let ghost evs = st.events@;
        let s = u64_to_string(v as u64);
        push_str(&mut st.output, s.as_str());
        st.events = Ghost(evs.push(Event::U16(v)));
        proof {
            lemma_render_push(st.enum_names, evs, Event::U16(v));
        }
        self.st = st;
    }

    fn handle_u32(&mut self, v: u32) {
        let mut st = self.take_state();
        let ghost evs = st.events@;
        let s = u64_to_string(v as u64);
        push_str(&mut st.output, s.as_str());
        st.events = Ghost(evs.push(Event::U32(v)));
        proof {
            lemma_render_push(st.enum_names, evs, Event::U32(v));
        }
        self.st = st;
    }

    fn handle_u64(&mut self, v: u64) {
        let mut st = self.take_state();
        let ghost evs = st.events@;
        let s = u64_to_string(v);
        push_str(&mut st.output, s.as_str());
        st.events = Ghost(evs.push(Event::U64(v)));
        proof {
            lemma_render_push(st.enum_names, evs, Event::U64(v));
        }
        self.st = st;
    }

    fn handle_i8(&mut self, v: i32) {
        let mut st = self.take_state();
        let ghost evs = st.events@;
        let s = i64_to_string(v as i64);
        push_str(&mut st.output, s.as_str());
        st.events = Ghost(evs.push(Event::I8(v)));
        proof {
            lemma_render_push(st.enum_names, evs, Event::I8(v));
        }
        self.st = st;
    }

    fn handle_i16(&mut self, v: i32) {
        let mut st = self.take_state();
        let ghost evs = st.events@;
        let s = i64_to_string(v as i64);
        push_str(&mut st.output, s.as_str());
        st.events = Ghost(evs.push(Event::I16(v)));
        proof {
            lemma_render_push(st.enum_names, evs, Event::I16(v));
        }
        self.st = st;
    }

    fn handle_i32(&mut self, v: i32) {
        let mut st = self.take_state();
        let ghost evs = st.events@;
        let s = i64_to_string(v as i64);
        push_str(&mut st.output, s.as_str());
        st.events = Ghost(evs.push(Event::I32(v)));
        proof {
            lemma_render_push(st.enum_names, evs, Event::I32(v));
        }
        self.st = st;
    }

    fn handle_i64(&mut self, v: i64) {
        let mut st = self.take_state();
        let ghost evs = st.events@;
        let s = i64_to_string(v);
        push_str(&mut st.output, s.as_str());
        st.events = Ghost(evs.push(Event::I64(v)));
        proof {
            lemma_render_push(st.enum_names, evs, Event::I64(v));
        }
        self.st = st;
    }

    fn handle_bool(&mut self, v: bool) {
        let mut st = self.take_state();
        let ghost evs = st.events@;
        if v {
            push_str(&mut st.output, "true");
        } else {
            push_str(&mut st.output, "false");
        }
        st.events = Ghost(evs.push(Event::Bool(v)));
        proof {
            lemma_render_push(st.enum_names, evs, Event::Bool(v));
        }
        self.st = st;
    }

    fn handle_string(&mut self, v: &str) {
        let mut st = self.take_state();
        let ghost evs = st.events@;
        let mut piece = String::new();
        push_char(&mut piece, '"');
        escape_into(&mut piece, v);
        push_char(&mut piece, '"');
        push_str(&mut st.output, piece.as_str());
        st.events = Ghost(evs.push(Event::Str(v@)));
        proof {
            lemma_render_push(st.enum_names, evs, Event::Str(v@));
            assert(st.output@ =~= spec_render(st.enum_names, evs) + quoted(v@));
        }
        self.st = st;
    }

    fn handle_unit(&mut self) {
        let mut st = self.take_state();
        let ghost evs = st.events@;
        push_str(&mut st.output, "()");
        st.events = Ghost(evs.push(Event::Unit));
        proof {
            lemma_render_push(st.enum_names, evs, Event::Unit);
        }
        self.st = st;
    }

    fn handle_phantom(&mut self) {
        let mut st = self.take_state();
        let ghost evs = st.events@;
        push_str(&mut st.output, "PhantomData");
        st.events = Ghost(evs.push(Event::Phantom));
        proof {
            lemma_render_push(st.enum_names, evs, Event::Phantom);
        }
        self.st = st;
    }

    fn begin_enum(&mut self, typename_id: &TypeNameId, option_name: &String) {
        let mut st = self.take_state();
        let ghost evs = st.events@;
        let ghost ev = Event::BeginEnum(crate::id_view(*typename_id), option_name@);
        if st.enum_names {
            push_str(&mut st.output, typename_id.0.as_str());
            push_str(&mut st.output, "::");
        }
        push_str(&mut st.output, option_name.as_str());
        st.events = Ghost(evs.push(ev));
        proof {
            lemma_render_push(st.enum_names, evs, ev);
            assert(st.output@ =~= spec_render(st.enum_names, evs) + event_text(
                st.enum_names,
                ev,
            ));
        }
        self.st = st;
    }

    fn end_enum(&mut self, typename_id: &TypeNameId) {
        let mut st = self.take_state();
        let ghost evs = st.events@;
        let ghost ev = Event::EndEnum(crate::id_view(*typename_id));

        st.events = Ghost(evs.push(ev));
        proof {
            lemma_render_push(st.enum_names, evs, ev);
            assert(st.output@ =~= spec_render(st.enum_names, evs) + event_text(
                st.enum_names,
                ev,
            ));
        }
        self.st = st;
    }

    fn option_none(&mut self) {
        let mut st = self.take_state();
        let ghost evs = st.events@;
        push_str(&mut st.output, "None");
        st.events = Ghost(evs.push(Event::OptionNone));
        proof {
            lemma_render_push(st.enum_names, evs, Event::OptionNone);
        }
        self.st = st;
    }

    fn option_some(&mut self) {
        let mut st = self.take_state();
        let ghost evs = st.events@;
        push_str(&mut st.output, "Some(");
        st.events = Ghost(evs.push(Event::OptionSome));
        proof {
            lemma_render_push(st.enum_names, evs, Event::OptionSome);
        }
        self.st = st;
    }

    fn option_end(&mut self) {
        let mut st = self.take_state();
        let ghost evs = st.events@;
        push_str(&mut st.output, ")");
        st.events = Ghost(evs.push(Event::OptionEnd));
        proof {
            lemma_render_push(st.enum_names, evs, Event::OptionEnd);
        }
        self.st = st;
    }

    fn result_ok(&mut self) {
        let mut st = self.take_state();
        let ghost evs = st.events@;
        push_str(&mut st.output, "Ok(");
        st.events = Ghost(evs.push(Event::ResultOk));
        proof {
            lemma_render_push(st.enum_names, evs, Event::ResultOk);
        }
        self.st = st;
    }

    fn result_err(&mut self) {
        let mut st = self.take_state();
        let ghost evs = st.events@;
        push_str(&mut st.output, "Err(");
        st.events = Ghost(evs.push(Event::ResultErr));
        proof {
            lemma_render_push(st.enum_names, evs, Event::ResultErr);
        }
        self.st = st;
    }

    fn result_end(&mut self) {
        let mut st = self.take_state();
        let ghost evs = st.events@;
        push_str(&mut st.output, ")");
        st.events = Ghost(evs.push(Event::ResultEnd));
        proof {
            lemma_render_push(st.enum_names, evs, Event::ResultEnd);
        }
        self.st = st;
    }

    fn struct_unit(&mut self, typename_id: Option<&TypeNameId>) {
        let mut st = self.take_state();
        let ghost evs = st.events@;
        let ghost ev = Event::StructUnit(crate::decoder::oid_view(typename_id));
        match typename_id {
            Some(id) => {
                push_str(&mut st.output, id.0.as_str());
            },
            None => {},
        }
        st.events = Ghost(evs.push(ev));
        proof {
            lemma_render_push(st.enum_names, evs, ev);
            assert(st.output@ =~= spec_render(st.enum_names, evs) + event_text(
                st.enum_names,
                ev,
            ));
        }
        self.st = st;
    }

    fn begin_struct_named(&mut self, typename_id: Option<&TypeNameId>) {
        let mut st = self.take_state();
        let ghost evs = st.events@;
        let ghost ev = Event::BeginStructNamed(crate::decoder::oid_view(typename_id));
        match typename_id {
            Some(id) => {
                push_str(&mut st.output, id.0.as_str());
            },
            None => {},
        }
        push_str(&mut st.output, "(");
        st.events = Ghost(evs.push(ev));
        proof {
            lemma_render_push(st.enum_names, evs, ev);
            assert(st.output@ =~= spec_render(st.enum_names, evs) + event_text(
                st.enum_names,
                ev,
            ));
        }
        self.st = st;
    }

    fn begin_struct_tuple(&mut self, typename_id: Option<&TypeNameId>) {
        let mut st = self.take_state();
        let ghost evs = st.events@;
        let ghost ev = Event::BeginStructTuple(crate::decoder::oid_view(typename_id));
        match typename_id {
            Some(id) => {
                push_str(&mut st.output, id.0.as_str());
            },
            None => {},
        }
        push_str(&mut st.output, "(");
        st.events = Ghost(evs.push(ev));
        proof {
            lemma_render_push(st.enum_names, evs, ev);
            assert(st.output@ =~= spec_render(st.enum_names, evs) + event_text(
                st.enum_names,
                ev,
            ));
        }
        self.st = st;
    }

    fn begin_named_field(&mut self, field_idx: u16, field_name: &String) {
        let mut st = self.take_state();
        let ghost evs = st.events@;
        let ghost ev = Event::BeginNamedField(field_idx, field_name@);
        if field_idx != 0 {
            push_str(&mut st.output, ", ");
        }
        push_str(&mut st.output, field_name.as_str());
        push_str(&mut st.output, ": ");
        st.events = Ghost(evs.push(ev));
        proof {
            lemma_render_push(st.enum_names, evs, ev);
            assert(st.output@ =~= spec_render(st.enum_names, evs) + event_text(
                st.enum_names,
                ev,
            ));
        }
        self.st = st;
    }

    fn begin_tuple_field(&mut self, field_idx: u16) {
        let mut st = self.take_state();
        let ghost evs = st.events@;
        if field_idx != 0 {
            push_str(&mut st.output, ", ");
        }
        st.events = Ghost(evs.push(Event::BeginTupleField(field_idx)));
        proof {
            lemma_render_push(st.enum_names, evs, Event::BeginTupleField(field_idx));
            assert(st.output@ =~= spec_render(st.enum_names, evs.push(Event::BeginTupleField(field_idx))));
        }
        self.st = st;
    }

    fn begin_tuple_item(&mut self, field_idx: u16) {
        let mut st = self.take_state();
        let ghost evs = st.events@;
        if field_idx != 0 {
            push_str(&mut st.output, ", ");
        }
        st.events = Ghost(evs.push(Event::BeginTupleItem(field_idx)));
        proof {
            lemma_render_push(st.enum_names, evs, Event::BeginTupleItem(field_idx));
            assert(st.output@ =~= spec_render(st.enum_names, evs.push(Event::BeginTupleItem(field_idx))));
        }
        self.st = st;
    }

    fn begin_array_item(&mut self, field_idx: u16) {
        let mut st = self.take_state();
        let ghost evs = st.events@;
        if field_idx != 0 {
            push_str(&mut st.output, ", ");
        }
        st.events = Ghost(evs.push(Event::BeginArrayItem(field_idx)));
        proof {
            lemma_render_push(st.enum_names, evs, Event::BeginArrayItem(field_idx));
            assert(st.output@ =~= spec_render(st.enum_names, evs.push(Event::BeginArrayItem(field_idx))));
        }
        self.st = st;
    }

    fn begin_slice_item(&mut self, field_idx: u16) {
        let mut st = self.take_state();
        let ghost evs = st.events@;
        if field_idx != 0 {
            push_str(&mut st.output, ", ");
        }
        st.events = Ghost(evs.push(Event::BeginSliceItem(field_idx)));
        proof {
            lemma_render_push(st.enum_names, evs, Event::BeginSliceItem(field_idx));
            assert(st.output@ =~= spec_render(st.enum_names, evs.push(Event::BeginSliceItem(field_idx))));
        }
        self.st = st;
    }

    fn end_named_field(&mut self) {
        let mut st = self.take_state();
        let ghost evs = st.events@;

        st.events = Ghost(evs.push(Event::EndNamedField));
        proof {
            lemma_render_push(st.enum_names, evs, Event::EndNamedField);
            assert(st.output@ =~= spec_render(st.enum_names, evs.push(Event::EndNamedField)));
        }
        self.st = st;
    }

    fn end_tuple_field(&mut self) {
        let mut st = self.take_state();
        let ghost evs = st.events@;

        st.events = Ghost(evs.push(Event::EndTupleField));
        proof {
            lemma_render_push(st.enum_names, evs, Event::EndTupleField);
            assert(st.output@ =~= spec_render(st.enum_names, evs.push(Event::EndTupleField)));
        }
        self.st = st;
    }

    fn end_tuple_item(&mut self) {
        let mut st = self.take_state();
        let ghost evs = st.events@;

        st.events = Ghost(evs.push(Event::EndTupleItem));
        proof {
            lemma_render_push(st.enum_names, evs, Event::EndTupleItem);
            assert(st.output@ =~= spec_render(st.enum_names, evs.push(Event::EndTupleItem)));
        }
        self.st = st;
    }

    fn end_array_item(&mut self) {
        let mut st = self.take_state();
        let ghost evs = st.events@;

        st.events = Ghost(evs.push(Event::EndArrayItem));
        proof {
            lemma_render_push(st.enum_names, evs, Event::EndArrayItem);
            assert(st.output@ =~= spec_render(st.enum_names, evs.push(Event::EndArrayItem)));
        }
        self.st = st;
    }

    fn end_slice_item(&mut self) {
        let mut st = self.take_state();
        let ghost evs = st.events@;

        st.events = Ghost(evs.push(Event::EndSliceItem));
        proof {
            lemma_render_push(st.enum_names, evs, Event::EndSliceItem);
            assert(st.output@ =~= spec_render(st.enum_names, evs.push(Event::EndSliceItem)));
        }
        self.st = st;
    }

    fn end_struct_named(&mut self) {
        let mut st = self.take_state();
        let ghost evs = st.events@;
        push_str(&mut st.output, ")");
        st.events = Ghost(evs.push(Event::EndStructNamed));
        proof {
            lemma_render_push(st.enum_names, evs, Event::EndStructNamed);
        }
        self.st = st;
    }

    fn end_struct_tuple(&mut self) {
        let mut st = self.take_state();
        let ghost evs = st.events@;
        push_str(&mut st.output, ")");
        st.events = Ghost(evs.push(Event::EndStructTuple));
        proof {
            lemma_render_push(st.enum_names, evs, Event::EndStructTuple);
        }
        self.st = st;
    }

    fn end_tuple(&mut self) {
        let mut st = self.take_state();
        let ghost evs = st.events@;
        push_str(&mut st.output, ")");
        st.events = Ghost(evs.push(Event::EndTuple));
        proof {
            lemma_render_push(st.enum_names, evs, Event::EndTuple);
        }
        self.st = st;
    }

    fn end_array(&mut self) {
        let mut st = self.take_state();
        let ghost evs = st.events@;
        push_str(&mut st.output, "]");
        st.events = Ghost(evs.push(Event::EndArray));
        proof {
            lemma_render_push(st.enum_names, evs, Event::EndArray);
        }
        self.st = st;
    }

    fn end_slice(&mut self) {
        let mut st = self.take_state();
        let ghost evs = st.events@;
        push_str(&mut st.output, "]");
        st.events = Ghost(evs.push(Event::EndSlice));
        proof {
            lemma_render_push(st.enum_names, evs, Event::EndSlice);
        }
        self.st = st;
    }

    fn begin_tuple(&mut self, size: usize) {
        let mut st = self.take_state();
        let ghost evs = st.events@;
        push_str(&mut st.output, "(");
        st.events = Ghost(evs.push(Event::BeginTuple(size as nat)));
        proof {
            lemma_render_push(st.enum_names, evs, Event::BeginTuple(size as nat));
        }
        self.st = st;
    }

    fn begin_array(&mut self, size: usize) {
        let mut st = self.take_state();
        let ghost evs = st.events@;
        push_str(&mut st.output, "[");
        st.events = Ghost(evs.push(Event::BeginArray(size as nat)));
        proof {
            lemma_render_push(st.enum_names, evs, Event::BeginArray(size as nat));
        }
        self.st = st;
    }

    fn begin_slice(&mut self, size: u64) {
        let mut st = self.take_state();
        let ghost evs = st.events@;
        push_str(&mut st.output, "[");
        st.events = Ghost(evs.push(Event::BeginSlice(size as nat)));
        proof {
            lemma_render_push(st.enum_names, evs, Event::BeginSlice(size as nat));
        }
        self.st = st;
    }
}

} // verus!
