//! A variant record's INFO column: typed key/value fields, their textual
//! form, and their parser.
//!
//! The textual form is `KEY=VALUE` fields joined by `;`, a bare `KEY` for
//! flags, and a lone `.` for the missing field. Values are typed by key:
//! counts parse as integers, frequencies as comma-separated decimal
//! numerals (kept as text, so the form is preserved exactly), anything
//! else as plain text.

use vstd::prelude::*;
use vstd::string::StringSliceAdditionalSpecFns;

verus! {

/// The byte form of a string's characters.
pub open spec fn str_bytes(s: Seq<char>) -> Seq<u8> {
    s.map_values(|c: char| c as u8)
}

/// An INFO field key.
#[derive(Clone, Debug, PartialEq, Eq)]
pub enum Key {
    /// `NS`: number of samples with data.
    SamplesWithDataCount,
    /// `AF`: allele frequencies.
    AlleleFrequencies,
    /// `DP`: combined depth.
    TotalDepth,
    /// Any other key, by its text.
    Other(String),
}

/// An INFO field value.
#[derive(Clone, Debug, PartialEq)]
pub enum Value {
    /// An integer value.
    Integer(i32),
    /// Decimal numerals, kept in their textual form.
    FloatArray(Vec<String>),
    /// Plain text.
    Text(String),
    /// A presence flag: the key stands alone.
    Flag,
}

/// One INFO field.
#[derive(Clone, Debug, PartialEq)]
pub struct Field {
    key: Key,
    value: Value,
}

/// The INFO column: a sequence of fields.
#[derive(Clone, Debug, PartialEq)]
pub struct Info(pub Vec<Field>);

/// The mathematical model of a field: its key text and typed value.
pub struct FieldModel {
    /// The key's byte text.
    pub key: Seq<u8>,
    /// The value's model.
    pub value: ValueModel,
}

/// The mathematical model of a field value.
pub enum ValueModel {
    /// An integer.
    Integer(int),
    /// Decimal numerals, each as byte text.
    FloatArray(Seq<Seq<u8>>),
    /// Plain byte text.
    Text(Seq<u8>),
    /// A presence flag.
    Flag,
}

impl Key {
    /// The key's byte text.
    pub open spec fn spec_text(self) -> Seq<u8> {
        match self {
            Key::SamplesWithDataCount => seq![0x4eu8, 0x53u8],
            Key::AlleleFrequencies => seq![0x41u8, 0x46u8],
            Key::TotalDepth => seq![0x44u8, 0x50u8],
            Key::Other(s) => str_bytes(s@),
        }
    }
}

impl Value {
    /// The value's model.
    pub open spec fn view_model(self) -> ValueModel {
        match self {
            Value::Integer(v) => ValueModel::Integer(v as int),
            Value::FloatArray(xs) => ValueModel::FloatArray(
                xs@.map_values(|s: String| str_bytes(s@)),
            ),
            Value::Text(s) => ValueModel::Text(str_bytes(s@)),
            Value::Flag => ValueModel::Flag,
        }
    }
}

impl Field {
    /// The field's model.
    pub closed spec fn view_model(self) -> FieldModel {
        FieldModel { key: self.key.spec_text(), value: self.value.view_model() }
    }

    /// Builds a field from a key and a value.
    pub fn new(key: Key, value: Value) -> (r: Field)
        ensures
            r.view_model().key == key.spec_text(),
            r.view_model().value == value.view_model(),
    {
        Field { key, value }
    }

    /// The field's key.
    pub fn key(&self) -> (r: &Key)
        ensures
            r.spec_text() == self.view_model().key,
    {
        &self.key
    }

    /// The field's value.
    pub fn value(&self) -> (r: &Value)
        ensures
            r.view_model() == self.view_model().value,
    {
        &self.value
    }
}

/// Whether `b` is a decimal digit.
pub open spec fn is_digit(b: u8) -> bool {
    0x30 <= b <= 0x39
}

/// Whether `b` can appear in a key.
pub open spec fn is_key_byte(b: u8) -> bool {
    ||| 0x41 <= b <= 0x5a
    ||| 0x61 <= b <= 0x7a
    ||| is_digit(b)
    ||| b == 0x5f
    ||| b == 0x2e
}

/// Whether `b` can appear in a decimal numeral.
pub open spec fn is_float_byte(b: u8) -> bool {
    is_digit(b) || b == 0x2e || b == 0x2b || b == 0x2d || b == 0x65 || b == 0x45
}

/// A valid key: non-empty, all key bytes.
pub open spec fn key_valid(s: Seq<u8>) -> bool {
    s.len() > 0 && forall|i: int| 0 <= i < s.len() ==> is_key_byte(#[trigger] s[i])
}

/// A valid decimal numeral: non-empty, all numeral bytes.
pub open spec fn float_text_valid(s: Seq<u8>) -> bool {
    s.len() > 0 && forall|i: int| 0 <= i < s.len() ==> is_float_byte(#[trigger] s[i])
}

/// Valid plain text: seven-bit, without the field and key separators.
pub open spec fn text_valid(s: Seq<u8>) -> bool {
    forall|i: int| 0 <= i < s.len() ==> ((#[trigger] s[i]) < 128 && s[i] != 0x3b && s[i] != 0x3d)
}

/// The value of a digit string, most significant first.
pub open spec fn dec_val(s: Seq<u8>) -> int
    decreases s.len(),
{
    if s.len() == 0 {
        0
    } else {
        dec_val(s.drop_last()) * 10 + (s.last() - 0x30)
    }
}

/// All bytes are digits.
pub open spec fn all_digits(s: Seq<u8>) -> bool {
    forall|i: int| 0 <= i < s.len() ==> is_digit(#[trigger] s[i])
}

/// A valid integer numeral: an optional minus sign, then digits, with a
/// value that fits a 32-bit integer.
pub open spec fn int_seg_valid(s: Seq<u8>) -> bool {
    if s.len() > 0 && s[0] == 0x2d {
        let d = s.skip(1);
        d.len() > 0 && all_digits(d) && dec_val(d) <= 0x8000_0000
    } else {
        s.len() > 0 && all_digits(s) && dec_val(s) <= 0x7fff_ffff
    }
}

/// The value of a valid integer numeral.
pub open spec fn int_seg_val(s: Seq<u8>) -> int {
    if s.len() > 0 && s[0] == 0x2d {
        -dec_val(s.skip(1))
    } else {
        dec_val(s)
    }
}

/// The decimal digit string of a natural number.
pub open spec fn dec_digits(n: nat) -> Seq<u8>
    decreases n,
{
    if n < 10 {
        seq![(0x30 + n) as u8]
    } else {
        dec_digits(n / 10).push((0x30 + n % 10) as u8)
    }
}

/// The decimal text of an integer.
pub open spec fn int_text(v: int) -> Seq<u8> {
    if v < 0 {
        seq![0x2du8] + dec_digits((-v) as nat)
    } else {
        dec_digits(v as nat)
    }
}

/// The textual form of a value; flags contribute nothing after the key.
pub open spec fn value_display(v: ValueModel) -> Seq<u8>
    decreases v,
{
    match v {
        ValueModel::Integer(n) => int_text(n),
        ValueModel::FloatArray(xs) => join_from(xs, 0),
        ValueModel::Text(s) => s,
        ValueModel::Flag => Seq::empty(),
    }
}

/// The elements of `xs` from `i` on, joined by commas.
pub open spec fn join_from(xs: Seq<Seq<u8>>, i: int) -> Seq<u8>
    decreases xs.len() - i,
{
    if i < 0 || i >= xs.len() {
        Seq::empty()
    } else if i == xs.len() - 1 {
        xs[i]
    } else {
        xs[i] + seq![0x2cu8] + join_from(xs, i + 1)
    }
}

/// The textual form of a field.
pub open spec fn field_display(f: FieldModel) -> Seq<u8> {
    match f.value {
        ValueModel::Flag => f.key,
        v => f.key + seq![0x3du8] + value_display(v),
    }
}

/// The textual form of a whole INFO column from field `i` on.
pub open spec fn info_display_from(ms: Seq<FieldModel>, i: int) -> Seq<u8>
    decreases ms.len() - i,
{
    if i < 0 || i >= ms.len() {
        Seq::empty()
    } else if i == ms.len() - 1 {
        field_display(ms[i])
    } else {
        field_display(ms[i]) + seq![0x3bu8] + info_display_from(ms, i + 1)
    }
}

/// The textual form of a whole INFO column: `.` when it is empty.
pub open spec fn info_display(ms: Seq<FieldModel>) -> Seq<u8> {
    if ms.len() == 0 {
        seq![0x2eu8]
    } else {
        info_display_from(ms, 0)
    }
}

/// The index of the first `b` in `s` at or after `i`, or the length.
pub open spec fn find_byte(s: Seq<u8>, b: u8, i: int) -> int
    decreases s.len() - i,
{
    if i < 0 || i >= s.len() {
        s.len() as int
    } else if s[i] == b {
        i
    } else {
        find_byte(s, b, i + 1)
    }
}

/// The first match index stays between the start index and the length.
pub proof fn lemma_find_byte_bounds(s: Seq<u8>, b: u8, i: int)
    requires
        0 <= i <= s.len(),
    ensures
        i <= find_byte(s, b, i) <= s.len(),
    decreases s.len() - i,
{
    if i < s.len() && s[i] != b {
        lemma_find_byte_bounds(s, b, i + 1);
    }
}

/// What parsing a value of the given key yields.
pub open spec fn spec_parse_value(key: Seq<u8>, s: Seq<u8>) -> Option<ValueModel> {
    if key == seq![0x4eu8, 0x53u8] || key == seq![0x44u8, 0x50u8] {
        if int_seg_valid(s) {
            Some(ValueModel::Integer(int_seg_val(s)))
        } else {
            None
        }
    } else if key == seq![0x41u8, 0x46u8] {
        match spec_parse_floats(s, 0) {
            Some(xs) => Some(ValueModel::FloatArray(xs)),
            None => None,
        }
    } else {
        if text_valid(s) {
            Some(ValueModel::Text(s))
        } else {
            None
        }
    }
}

/// What parsing a comma-separated numeral list from `i` on yields.
pub open spec fn spec_parse_floats(s: Seq<u8>, i: int) -> Option<Seq<Seq<u8>>>
    decreases s.len() - i,
    via spec_parse_floats_dec
{
    if i < 0 || i > s.len() {
        None
    } else {
        let k = find_byte(s, 0x2c, i);
        let seg = s.subrange(i, k);
        if !float_text_valid(seg) {
            None
        } else if k >= s.len() {
            Some(seq![seg])
        } else {
            match spec_parse_floats(s, k + 1) {
                Some(rest) => Some(seq![seg] + rest),
                None => None,
            }
        }
    }
}

#[via_fn]
proof fn spec_parse_floats_dec(s: Seq<u8>, i: int) {
    if 0 <= i <= s.len() {
        lemma_find_byte_bounds(s, 0x2c, i);
    }
}

/// What parsing one `KEY[=VALUE]` segment yields.
pub open spec fn spec_parse_field(seg: Seq<u8>) -> Option<FieldModel> {
    let e = find_byte(seg, 0x3d, 0);
    let key = seg.subrange(0, e);
    if !key_valid(key) {
        None
    } else if e >= seg.len() {
        Some(FieldModel { key, value: ValueModel::Flag })
    } else {
        match spec_parse_value(key, seg.subrange(e + 1, seg.len() as int)) {
            Some(v) => Some(FieldModel { key, value: v }),
            None => None,
        }
    }
}

/// What parsing semicolon-separated fields from `i` on yields.
pub open spec fn spec_parse_fields(s: Seq<u8>, i: int) -> Option<Seq<FieldModel>>
    decreases s.len() - i,
    via spec_parse_fields_dec
{
    if i < 0 || i > s.len() {
        None
    } else {
        let k = find_byte(s, 0x3b, i);
        match spec_parse_field(s.subrange(i, k)) {
            None => None,
            Some(f) => {
                if k >= s.len() {
                    Some(seq![f])
                } else {
                    match spec_parse_fields(s, k + 1) {
                        Some(rest) => Some(seq![f] + rest),
                        None => None,
                    }
                }
            },
        }
    }
}

#[via_fn]
proof fn spec_parse_fields_dec(s: Seq<u8>, i: int) {
    if 0 <= i <= s.len() {
        lemma_find_byte_bounds(s, 0x3b, i);
    }
}

/// An error returned when an INFO column fails to parse.
#[derive(Clone, Copy, Debug, PartialEq, Eq, Structural)]
pub enum ParseError {
    /// The input was empty.
    Empty,
    /// A field was malformed: a bad key, a bad value for its key's type,
    /// or a stray separator.
    InvalidField,
}

impl ParseError {
    /// A short human-readable description of the error.
    pub fn message(&self) -> &'static str {
        match self {
            ParseError::Empty => "invalid info: field is empty",
            ParseError::InvalidField => "invalid info: invalid field",
        }
    }
}

/// Appends the decimal digits of `v`.
fn push_dec_u32(out: &mut Vec<u8>, v: u32)
    ensures
        final(out)@ == old(out)@ + dec_digits(v as nat),
    decreases v,
{
    if v < 10 {
        out.push(0x30 + v as u8);
        proof {
            assert(out@ =~= old(out)@ + dec_digits(v as nat));
        }
    } else {
        push_dec_u32(out, v / 10);
        out.push(0x30 + (v % 10) as u8);
        proof {
            assert(out@ =~= old(out)@ + dec_digits(v as nat));
        }
    }
}

/// Appends the decimal text of `v`.
fn push_int_i32(out: &mut Vec<u8>, v: i32)
    ensures
        final(out)@ == old(out)@ + int_text(v as int),
{
    if v < 0 {
        out.push(0x2d);
        let m: u32 = (-(v as i64)) as u32;
        push_dec_u32(out, m);
        proof {
            assert(out@ =~= old(out)@ + int_text(v as int));
        }
    } else {
        push_dec_u32(out, v as u32);
    }
}

/// Appends the bytes of an ASCII string.
pub(crate) fn push_str_bytes(out: &mut Vec<u8>, s: &String)
    requires
        vstd::utf8::is_ascii_chars(s@),
    ensures
        final(out)@ == old(out)@ + str_bytes(s@),
{
    proof {
        vstd::utf8::is_ascii_chars_encode_utf8(s@);
    }
    let b = s.as_str().as_bytes();
    proof {
        assert(b@ =~= str_bytes(s@));
    }
    let mut i: usize = 0;
    while i < b.len()
        invariant
            0 <= i <= b@.len(),
            b@ == str_bytes(s@),
            out@ == old(out)@ + b@.subrange(0, i as int),
        decreases b@.len() - i,
    {
        let x = b[i];
        out.push(x);
        proof {
            assert(out@ =~= old(out)@ + b@.subrange(0, i + 1));
        }
        i += 1;
    }
    proof {
        assert(b@.subrange(0, b@.len() as int) =~= b@);
    }
}

/// Every byte is seven-bit.
pub open spec fn all_bytes_ascii(s: Seq<u8>) -> bool {
    forall|i: int| 0 <= i < s.len() ==> (#[trigger] s[i]) < 128
}

/// A key is well-formed: for a named key by construction, for another
/// key when its text is ASCII and valid.
pub open spec fn key_wf(k: Key) -> bool {
    match k {
        Key::Other(s) => vstd::utf8::is_ascii_chars(s@) && key_valid(str_bytes(s@)),
        _ => true,
    }
}

/// A value is well-formed: its texts are ASCII and valid for its type.
pub open spec fn value_wf(v: Value) -> bool {
    match v {
        Value::Integer(_) => true,
        Value::FloatArray(xs) => forall|i: int|
            0 <= i < xs@.len() ==> vstd::utf8::is_ascii_chars((#[trigger] xs@[i])@)
                && float_text_valid(str_bytes(xs@[i]@)),
        Value::Text(s) => vstd::utf8::is_ascii_chars(s@) && text_valid(str_bytes(s@)),
        Value::Flag => true,
    }
}

impl Field {
    /// The field's key and value are well-formed.
    pub closed spec fn wf(self) -> bool {
        key_wf(self.key) && value_wf(self.value)
    }
}

/// The digits of a natural number are decimal digit bytes.
proof fn lemma_dec_digits_ascii(n: nat)
    ensures
        all_digits(dec_digits(n)),
        all_bytes_ascii(dec_digits(n)),
    decreases n,
{
    if n >= 10 {
        lemma_dec_digits_ascii(n / 10);
        assert forall|i: int| 0 <= i < dec_digits(n).len() implies is_digit(
            #[trigger] dec_digits(n)[i],
        ) by {
            if i < dec_digits(n / 10).len() {
                assert(dec_digits(n)[i] == dec_digits(n / 10)[i]);
            }
        }
    }
}

/// The text of a well-formed value is seven-bit.
proof fn lemma_value_display_ascii(v: Value)
    requires
        value_wf(v),
    ensures
        all_bytes_ascii(value_display(v.view_model())),
{
    match v {
        Value::Integer(n) => {
            if n < 0 {
                lemma_dec_digits_ascii((-(n as int)) as nat);
            } else {
                lemma_dec_digits_ascii(n as nat);
            }
        },
        Value::FloatArray(xs) => {
            let ms = xs@.map_values(|s: String| str_bytes(s@));
            assert forall|i: int| 0 <= i < ms.len() implies all_bytes_ascii(#[trigger] ms[i])
                && ms[i].len() > 0 by {
                assert(float_text_valid(str_bytes(xs@[i]@)));
            }
            lemma_join_ascii(ms, 0);
        },
        Value::Text(s) => {},
        Value::Flag => {},
    }
}

/// Joining seven-bit pieces gives seven-bit text.
proof fn lemma_join_ascii(xs: Seq<Seq<u8>>, i: int)
    requires
        forall|j: int| 0 <= j < xs.len() ==> all_bytes_ascii(#[trigger] xs[j]),
    ensures
        all_bytes_ascii(join_from(xs, i)),
    decreases xs.len() - i,
{
    if 0 <= i < xs.len() && i != xs.len() - 1 {
        lemma_join_ascii(xs, i + 1);
    }
}

/// The text of a well-formed field is seven-bit.
proof fn lemma_field_display_ascii(f: Field)
    requires
        f.wf(),
    ensures
        all_bytes_ascii(field_display(f.view_model())),
{
    assert(all_bytes_ascii(f.view_model().key)) by {
        match f.key {
            Key::Other(s) => {
                assert(key_valid(str_bytes(s@)));
            },
            _ => {},
        }
    }
    lemma_value_display_ascii(f.value);
}

/// Relies on String::from_utf8: seven-bit bytes decode to one character
/// per byte, with the same code points.
#[verifier::external_body]
pub(crate) fn ascii_to_string(v: Vec<u8>) -> (r: String)
    requires
        all_bytes_ascii(v@),
    ensures
        r@ == v@.map_values(|b: u8| b as char),
{
    String::from_utf8(v).unwrap_or_default()
}

/// Appends the textual form of a value.
fn push_value(out: &mut Vec<u8>, v: &Value)
    requires
        value_wf(*v),
    ensures
        final(out)@ == old(out)@ + value_display(v.view_model()),
{
    match v {
        Value::Integer(n) => {
            push_int_i32(out, *n);
        },
        Value::FloatArray(xs) => {
            if xs.len() > 0 {
                push_floats_from(out, xs, 0);
            }
        },
        Value::Text(s) => {
            push_str_bytes(out, s);
        },
        Value::Flag => {},
    }
}

/// Appends the numerals of `xs` from `i` on, joined by commas.
fn push_floats_from(out: &mut Vec<u8>, xs: &Vec<String>, i: usize)
    requires
        i < xs@.len(),
        forall|j: int|
            0 <= j < xs@.len() ==> vstd::utf8::is_ascii_chars((#[trigger] xs@[j])@),
    ensures
        final(out)@ == old(out)@ + join_from(xs@.map_values(|s: String| str_bytes(s@)), i as int),
    decreases xs@.len() - i,
{
    push_str_bytes(out, &xs[i]);
    if i < xs.len() - 1 {
        out.push(0x2c);
        push_floats_from(out, xs, i + 1);
    }
    proof {
        let ms = xs@.map_values(|s: String| str_bytes(s@));
        assert(out@ =~= old(out)@ + join_from(ms, i as int));
    }
}

/// Appends the textual form of a field.
fn push_field(out: &mut Vec<u8>, f: &Field)
    requires
        f.wf(),
    ensures
        final(out)@ == old(out)@ + field_display(f.view_model()),
{
    match &f.key {
        Key::SamplesWithDataCount => {
            out.push(0x4e);
            out.push(0x53);
        },
        Key::AlleleFrequencies => {
            out.push(0x41);
            out.push(0x46);
        },
        Key::TotalDepth => {
            out.push(0x44);
            out.push(0x50);
        },
        Key::Other(s) => {
            push_str_bytes(out, s);
        },
    }
    proof {
        assert(out@ =~= old(out)@ + f.view_model().key);
    }
    let flag = match &f.value {
        Value::Flag => true,
        _ => false,
    };
    if !flag {
        out.push(0x3d);
        push_value(out, &f.value);
        proof {
            assert(out@ =~= old(out)@ + field_display(f.view_model()));
        }
    }
}

/// Appends the textual form of the fields from `i` on.
fn push_info_from(out: &mut Vec<u8>, fields: &Vec<Field>, i: usize)
    requires
        i < fields@.len(),
        forall|j: int| 0 <= j < fields@.len() ==> (#[trigger] fields@[j]).wf(),
    ensures
        final(out)@ == old(out)@ + info_display_from(
            fields@.map_values(|f: Field| f.view_model()),
            i as int,
        ),
    decreases fields@.len() - i,
{
    push_field(out, &fields[i]);
    if i < fields.len() - 1 {
        out.push(0x3b);
        push_info_from(out, fields, i + 1);
    }
    proof {
        let ms = fields@.map_values(|f: Field| f.view_model());
        assert(out@ =~= old(out)@ + info_display_from(ms, i as int));
    }
}

impl Info {
    /// The models of the fields, in order.
    pub open spec fn view_models(self) -> Seq<FieldModel> {
        self.0@.map_values(|f: Field| f.view_model())
    }

    /// Every field is well-formed.
    pub open spec fn wf(self) -> bool {
        forall|i: int| 0 <= i < self.0@.len() ==> (#[trigger] self.0@[i]).wf()
    }

    /// An empty INFO column.
    pub fn new() -> (r: Info)
        ensures
            r.wf(),
            r.view_models() == Seq::<FieldModel>::empty(),
    {
        let r = Info(Vec::new());
        proof {
            assert(r.view_models() =~= Seq::<FieldModel>::empty());
        }
        r
    }

    /// How many fields the column holds.
    pub fn len(&self) -> (r: usize)
        ensures
            r == self.view_models().len(),
    {
        self.0.len()
    }

    /// Whether the column holds no fields.
    pub fn is_empty(&self) -> (r: bool)
        ensures
            r == (self.view_models().len() == 0),
    {
        self.0.len() == 0
    }

    /// The field at `i`.
    pub fn get(&self, i: usize) -> (r: &Field)
        requires
            i < self.view_models().len(),
        ensures
            r.view_model() == self.view_models()[i as int],
    {
        &self.0[i]
    }

    /// The textual form of the column: its fields joined by `;`, or `.`
    /// when it is empty.
    pub fn to_string(&self) -> (r: String)
        requires
            self.wf(),
        ensures
            r@ == info_display(self.view_models()).map_values(|b: u8| b as char),
    {
        let mut out: Vec<u8> = Vec::new();
        if self.0.len() == 0 {
            out.push(0x2e);
        } else {
            push_info_from(&mut out, &self.0, 0);
            proof {
                lemma_info_display_ascii(self.0@, 0);
            }
        }
        ascii_to_string(out)
    }
}

/// The text of well-formed fields is seven-bit.
proof fn lemma_info_display_ascii(fields: Seq<Field>, i: int)
    requires
        forall|j: int| 0 <= j < fields.len() ==> (#[trigger] fields[j]).wf(),
    ensures
        all_bytes_ascii(info_display_from(fields.map_values(|f: Field| f.view_model()), i)),
    decreases fields.len() - i,
{
    let ms = fields.map_values(|f: Field| f.view_model());
    if 0 <= i < ms.len() {
        lemma_field_display_ascii(fields[i]);
        if i != ms.len() - 1 {
            lemma_info_display_ascii(fields, i + 1);
        }
    }
}

impl Default for Info {
    /// An empty INFO column.
    fn default() -> (r: Info)
        ensures
            r.wf(),
            r.view_models() == Seq::<FieldModel>::empty(),
    {
        Info::new()
    }
}

impl From<Vec<Field>> for Info {
    /// Wraps fields as an INFO column.
    fn from(fields: Vec<Field>) -> (r: Info) {
        Info(fields)
    }
}

impl vstd::std_specs::convert::FromSpecImpl<Vec<Field>> for Info {
    open spec fn obeys_from_spec() -> bool {
        true
    }

    open spec fn from_spec(fields: Vec<Field>) -> Info {
        Info(fields)
    }
}

/// A digit string's value is never negative.
proof fn lemma_dec_val_nonneg(s: Seq<u8>)
    requires
        all_digits(s),
    ensures
        dec_val(s) >= 0,
    decreases s.len(),
{
    if s.len() > 0 {
        assert(all_digits(s.drop_last())) by {
            assert forall|i: int| 0 <= i < s.drop_last().len() implies is_digit(
                #[trigger] s.drop_last()[i],
            ) by {
                assert(s.drop_last()[i] == s[i]);
            }
        }
        lemma_dec_val_nonneg(s.drop_last());
    }
}

/// A digit string's value only grows as digits are appended.
proof fn lemma_dec_val_prefix(s: Seq<u8>, j: int)
    requires
        all_digits(s),
        0 <= j <= s.len(),
    ensures
        dec_val(s.take(j)) <= dec_val(s),
    decreases s.len() - j,
{
    if j < s.len() {
        lemma_dec_val_prefix(s, j + 1);
        let t = s.take(j + 1);
        assert(t.drop_last() =~= s.take(j));
        assert(t.last() == s[j]);
        assert(is_digit(s[j]));
        assert(all_digits(s.take(j))) by {
            assert forall|i: int| 0 <= i < j implies is_digit(#[trigger] s.take(j)[i]) by {
                assert(s.take(j)[i] == s[i]);
            }
        }
        lemma_dec_val_nonneg(s.take(j));
        assert(dec_val(t) == dec_val(s.take(j)) * 10 + (t.last() - 0x30));
    } else {
        assert(s.take(j) =~= s);
    }
}

/// Copies the byte range `[lo, hi)`.
pub(crate) fn copy_range(b: &[u8], lo: usize, hi: usize) -> (r: Vec<u8>)
    requires
        lo <= hi <= b@.len(),
    ensures
        r@ == b@.subrange(lo as int, hi as int),
{
    let mut out: Vec<u8> = Vec::new();
    let mut i: usize = lo;
    while i < hi
        invariant
            lo <= i <= hi <= b@.len(),
            out@ == b@.subrange(lo as int, i as int),
        decreases hi - i,
    {
        out.push(b[i]);
        proof {
            assert(out@ =~= b@.subrange(lo as int, i + 1));
        }
        i += 1;
    }
    out
}

/// Finds the first `x` in `b` at or after `i`.
pub(crate) fn find_byte_exec(b: &Vec<u8>, x: u8, i: usize) -> (r: usize)
    requires
        i <= b@.len(),
    ensures
        r == find_byte(b@, x, i as int),
        i <= r <= b@.len(),
    decreases b@.len() - i,
{
    if i >= b.len() {
        b.len()
    } else if b[i] == x {
        i
    } else {
        find_byte_exec(b, x, i + 1)
    }
}

/// Parses a signed 32-bit integer numeral.
fn parse_int_seg(seg: &Vec<u8>) -> (r: Option<i32>)
    ensures
        (r is Some) == int_seg_valid(seg@),
        r matches Some(v) ==> v as int == int_seg_val(seg@),
{
    if seg.len() == 0 {
        return None;
    }
    let neg = seg[0] == 0x2d;
    let dstart: usize = if neg { 1 } else { 0 };
    if dstart >= seg.len() {
        return None;
    }
    let ghost d = seg@.subrange(dstart as int, seg@.len() as int);
    proof {
        if neg {
            assert(d =~= seg@.skip(1));
        } else {
            assert(d =~= seg@);
        }
    }
    let mut acc: u64 = 0;
    let mut j: usize = dstart;
    while j < seg.len()
        invariant
            dstart <= j <= seg@.len(),
            dstart < seg@.len(),
            neg == (seg@[0] == 0x2d),
            dstart == (if neg { 1int } else { 0int }),
            d == seg@.subrange(dstart as int, seg@.len() as int),
            neg ==> d == seg@.skip(1),
            !neg ==> d == seg@,
            all_digits(d.take(j - dstart)),
            acc == dec_val(d.take(j - dstart)),
            acc <= 0x8000_0000,
        decreases seg@.len() - j,
    {
        let c = seg[j];
        if c < 0x30 || c > 0x39 {
            proof {
                assert(d[j - dstart] == seg@[j as int]);
                assert(!all_digits(d));
            }
            return None;
        }
        acc = acc * 10 + (c - 0x30) as u64;
        j += 1;
        proof {
            assert(d.take(j - dstart).drop_last() =~= d.take(j - dstart - 1));
            assert(d.take(j - dstart).last() == seg@[j - 1]);
            assert(all_digits(d.take(j - dstart)));
        }
        if acc > 0x8000_0000 {
            proof {
                lemma_dec_val_prefix_if_all(d, j - dstart, acc as int);
            }
            return None;
        }
    }
    proof {
        assert(d.take(d.len() as int) =~= d);
        assert(seg@.take(seg@.len() as int) =~= seg@);
        if !neg {
            assert(d =~= seg@);
        }
    }
    if neg {
        Some((-(acc as i64)) as i32)
    } else {
        if acc > 0x7fff_ffff {
            return None;
        }
        Some(acc as i32)
    }
}

/// If a digit prefix already exceeds the signed-range bound, the whole
/// string is no valid 32-bit numeral.
proof fn lemma_dec_val_prefix_if_all(d: Seq<u8>, j: int, acc: int)
    requires
        0 <= j <= d.len(),
        all_digits(d.take(j)),
        dec_val(d.take(j)) == acc,
        acc > 0x8000_0000,
    ensures
        !(all_digits(d) && dec_val(d) <= 0x8000_0000),
{
    if all_digits(d) {
        lemma_dec_val_prefix(d, j);
    }
}

/// Parses a key, recognising the named keys.
fn parse_key(seg: &Vec<u8>, lo: usize, hi: usize) -> (r: Option<Key>)
    requires
        lo <= hi <= seg@.len(),
    ensures
        (r is Some) == key_valid(seg@.subrange(lo as int, hi as int)),
        r matches Some(k) ==> k.spec_text() == seg@.subrange(lo as int, hi as int) && key_wf(k)
            && (k is Other ==> k.spec_text() != seq![0x4eu8, 0x53u8] && k.spec_text() != seq![
            0x41u8,
            0x46u8,
        ] && k.spec_text() != seq![0x44u8, 0x50u8]),
{
    let ghost sub = seg@.subrange(lo as int, hi as int);
    if hi == lo {
        return None;
    }
    let mut i: usize = lo;
    while i < hi
        invariant
            lo <= i <= hi <= seg@.len(),
            sub == seg@.subrange(lo as int, hi as int),
            forall|j: int| 0 <= j < i - lo ==> is_key_byte(#[trigger] sub[j]),
        decreases hi - i,
    {
        let c = seg[i];
        let ok = (c >= 0x41 && c <= 0x5a) || (c >= 0x61 && c <= 0x7a) || (c >= 0x30 && c <= 0x39)
            || c == 0x5f || c == 0x2e;
        if !ok {
            proof {
                assert(sub[i - lo] == seg@[i as int]);
            }
            return None;
        }
        proof {
            assert(sub[i - lo] == seg@[i as int]);
        }
        i += 1;
    }
    if hi - lo == 2 {
        let a = seg[lo];
        let b = seg[lo + 1];
        if a == 0x4e && b == 0x53 {
            proof {
                assert(sub =~= seq![0x4eu8, 0x53u8]);
            }
            return Some(Key::SamplesWithDataCount);
        }
        if a == 0x41 && b == 0x46 {
            proof {
                assert(sub =~= seq![0x41u8, 0x46u8]);
            }
            return Some(Key::AlleleFrequencies);
        }
        if a == 0x44 && b == 0x50 {
            proof {
                assert(sub =~= seq![0x44u8, 0x50u8]);
            }
            return Some(Key::TotalDepth);
        }
    }
    let text = copy_range(vec_as_slice(seg), lo, hi);
    proof {
        assert(all_bytes_ascii(text@));
    }
    let s = ascii_to_string(text);
    proof {
        assert(str_bytes(s@) =~= sub);
        if sub.len() == 2 {
            assert(sub != seq![0x4eu8, 0x53u8] && sub != seq![0x41u8, 0x46u8] && sub != seq![
                0x44u8,
                0x50u8,
            ]) by {
                if sub == seq![0x4eu8, 0x53u8] {
                    assert(seg@[lo as int] == 0x4e && seg@[lo + 1] == 0x53);
                }
                if sub == seq![0x41u8, 0x46u8] {
                    assert(seg@[lo as int] == 0x41 && seg@[lo + 1] == 0x46);
                }
                if sub == seq![0x44u8, 0x50u8] {
                    assert(seg@[lo as int] == 0x44 && seg@[lo + 1] == 0x50);
                }
            }
        }
    }
    Some(Key::Other(s))
}

/// Borrows a vector's bytes as a slice.
pub(crate) fn vec_as_slice(v: &Vec<u8>) -> (r: &[u8])
    ensures
        r@ == v@,
{
    v.as_slice()
}

/// Parses a comma-separated numeral list from `i` on.
fn parse_floats_exec(v: &Vec<u8>, i: usize) -> (r: Option<Vec<String>>)
    requires
        i <= v@.len(),
    ensures
        (r is Some) == (spec_parse_floats(v@, i as int) is Some),
        r matches Some(fs) ==> spec_parse_floats(v@, i as int) == Some(
            fs@.map_values(|s: String| str_bytes(s@)),
        ) && (forall|j: int|
            0 <= j < fs@.len() ==> vstd::utf8::is_ascii_chars((#[trigger] fs@[j])@)
                && float_text_valid(str_bytes(fs@[j]@))),
    decreases v@.len() - i,
{
    let k = find_byte_exec(v, 0x2c, i);
    let ghost segg = v@.subrange(i as int, k as int);
    let mut j: usize = i;
    let mut good = true;
    while j < k && good
        invariant
            i <= j <= k <= v@.len(),
            segg == v@.subrange(i as int, k as int),
            good ==> forall|m: int| 0 <= m < j - i ==> is_float_byte(#[trigger] segg[m]),
            !good ==> !float_text_valid(segg),
        decreases k - j + (if good { 1int } else { 0int }),
    {
        let c = v[j];
        let ok = (c >= 0x30 && c <= 0x39) || c == 0x2e || c == 0x2b || c == 0x2d || c == 0x65
            || c == 0x45;
        proof {
            assert(segg[j - i] == v@[j as int]);
        }
        if !ok {
            good = false;
        } else {
            j += 1;
        }
    }
    if !good || k == i {
        return None;
    }
    let segv = copy_range(v.as_slice(), i, k);
    proof {
        assert(all_bytes_ascii(segv@));
    }
    let s = ascii_to_string(segv);
    proof {
        assert(str_bytes(s@) =~= segg);
    }
    if k >= v.len() {
        let mut out: Vec<String> = Vec::new();
        out.push(s);
        proof {
            assert(out@.map_values(|s: String| str_bytes(s@)) =~= seq![segg]);
        }
        Some(out)
    } else {
        match parse_floats_exec(v, k + 1) {
            None => None,
            Some(rest) => {
                let mut out = rest;
                out.insert(0, s);
                proof {
                    let ms = out@.map_values(|s: String| str_bytes(s@));
                    let prev = spec_parse_floats(v@, k + 1int);
                    assert(ms =~= seq![segg] + prev->0);
                }
                Some(out)
            },
        }
    }
}

/// Parses a value segment as the given key's type.
fn parse_value_exec(v: &Vec<u8>, key: &Key) -> (r: Option<Value>)
    requires
        key_wf(*key),
        key is Other ==> key.spec_text() != seq![0x4eu8, 0x53u8] && key.spec_text() != seq![
            0x41u8,
            0x46u8,
        ] && key.spec_text() != seq![0x44u8, 0x50u8],
    ensures
        (r is Some) == (spec_parse_value(key.spec_text(), v@) is Some),
        r matches Some(val) ==> spec_parse_value(key.spec_text(), v@) == Some(val.view_model())
            && value_wf(val),
{
    proof {
        assert(seq![0x4eu8, 0x53u8] != seq![0x41u8, 0x46u8]) by {
            assert(seq![0x4eu8, 0x53u8][0] != seq![0x41u8, 0x46u8][0]);
        }
        assert(seq![0x44u8, 0x50u8] != seq![0x41u8, 0x46u8]) by {
            assert(seq![0x44u8, 0x50u8][0] != seq![0x41u8, 0x46u8][0]);
        }
    }
    match key {
        Key::SamplesWithDataCount | Key::TotalDepth => match parse_int_seg(v) {
            Some(n) => Some(Value::Integer(n)),
            None => None,
        },
        Key::AlleleFrequencies => match parse_floats_exec(v, 0) {
            Some(fs) => Some(Value::FloatArray(fs)),
            None => None,
        },
        Key::Other(_) => {
            let mut j: usize = 0;
            let mut good = true;
            while j < v.len() && good
                invariant
                    0 <= j <= v@.len(),
                    good ==> forall|m: int|
                        0 <= m < j ==> ((#[trigger] v@[m]) < 128 && v@[m] != 0x3b && v@[m]
                            != 0x3d),
                    !good ==> !text_valid(v@),
                decreases v@.len() - j + (if good { 1int } else { 0int }),
            {
                let c = v[j];
                if c >= 128 || c == 0x3b || c == 0x3d {
                    good = false;
                } else {
                    j += 1;
                }
            }
            if !good {
                return None;
            }
            let t = copy_range(v.as_slice(), 0, v.len());
            proof {
                assert(t@ =~= v@);
            }
            let s = ascii_to_string(t);
            proof {
                assert(str_bytes(s@) =~= v@);
            }
            Some(Value::Text(s))
        },
    }
}

/// Parses one `KEY[=VALUE]` segment.
fn parse_field_exec(seg: &Vec<u8>) -> (r: Option<Field>)
    ensures
        (r is Some) == (spec_parse_field(seg@) is Some),
        r matches Some(f) ==> spec_parse_field(seg@) == Some(f.view_model()) && f.wf(),
{
    let e = find_byte_exec(seg, 0x3d, 0);
    match parse_key(seg, 0, e) {
        None => None,
        Some(k) => {
            if e >= seg.len() {
                Some(Field { key: k, value: Value::Flag })
            } else {
                let valseg = copy_range(seg.as_slice(), e + 1, seg.len());
                match parse_value_exec(&valseg, &k) {
                    None => None,
                    Some(v) => Some(Field { key: k, value: v }),
                }
            }
        },
    }
}

/// Parses semicolon-separated fields from `i` on.
fn parse_fields_exec(b: &Vec<u8>, i: usize) -> (r: Option<Vec<Field>>)
    requires
        i <= b@.len(),
    ensures
        (r is Some) == (spec_parse_fields(b@, i as int) is Some),
        r matches Some(fs) ==> spec_parse_fields(b@, i as int) == Some(
            fs@.map_values(|f: Field| f.view_model()),
        ) && (forall|j: int| 0 <= j < fs@.len() ==> (#[trigger] fs@[j]).wf()),
    decreases b@.len() - i,
{
    let k = find_byte_exec(b, 0x3b, i);
    let seg = copy_range(b.as_slice(), i, k);
    match parse_field_exec(&seg) {
        None => None,
        Some(f) => {
            if k >= b.len() {
                let mut out: Vec<Field> = Vec::new();
                out.push(f);
                proof {
                    assert(out@.map_values(|f: Field| f.view_model()) =~= seq![
                        f.view_model(),
                    ]);
                }
                Some(out)
            } else {
                match parse_fields_exec(b, k + 1) {
                    None => None,
                    Some(rest) => {
                        let mut out = rest;
                        out.insert(0, f);
                        proof {
                            let prev = spec_parse_fields(b@, k + 1int);
                            assert(out@.map_values(|f: Field| f.view_model()) =~= seq![
                                f.view_model(),
                            ] + prev->0);
                        }
                        Some(out)
                    },
                }
            }
        },
    }
}

/// What parsing a whole INFO column yields: the missing field `.` gives
/// an empty column, an empty input is an error of its own, and anything
/// else parses as fields.
pub open spec fn spec_parse_info(bs: Seq<u8>) -> Result<Seq<FieldModel>, ParseError> {
    if bs.len() == 0 {
        Err(ParseError::Empty)
    } else if bs == seq![0x2eu8] {
        Ok(Seq::empty())
    } else {
        match spec_parse_fields(bs, 0) {
            Some(ms) => Ok(ms),
            None => Err(ParseError::InvalidField),
        }
    }
}

impl Info {
    /// Parses the textual form of an INFO column.
    pub fn parse_info(s: &str) -> (r: Result<Info, ParseError>)
        ensures
            match spec_parse_info(s.spec_bytes()) {
                Ok(ms) => r matches Ok(info) && info.view_models() == ms && info.wf(),
                Err(e) => r == Err::<Info, ParseError>(e),
            },
    {
        let bs = s.as_bytes();
        let b = copy_range(bs, 0, bs.len());
        proof {
            assert(b@ =~= s.spec_bytes());
        }
        if b.len() == 0 {
            return Err(ParseError::Empty);
        }
        if b.len() == 1 {
            let c = b[0];
            if c == 0x2e {
                proof {
                    assert(b@ =~= seq![0x2eu8]);
                }
                return Ok(Info::new());
            }
        }
        proof {
            if b@ == seq![0x2eu8] {
                assert(b@.len() == 1 && b@[0] == 0x2e);
            }
        }
        match parse_fields_exec(&b, 0) {
            Some(fs) => Ok(Info(fs)),
            None => Err(ParseError::InvalidField),
        }
    }
}

impl core::str::FromStr for Info {
    type Err = ParseError;

    /// Parses the textual form of an INFO column.
    fn from_str(s: &str) -> Result<Info, ParseError> {
        Info::parse_info(s)
    }
}

/// A field key is canonical when it is valid, is not the lone missing
/// marker, and names a reserved key only with that key's value type.
pub open spec fn field_canonical(m: FieldModel) -> bool {
    &&& key_valid(m.key)
    &&& m.key != seq![0x2eu8]
    &&& match m.value {
        ValueModel::Integer(n) => (m.key == seq![0x4eu8, 0x53u8] || m.key == seq![
            0x44u8,
            0x50u8,
        ]) && -0x8000_0000 <= n <= 0x7fff_ffff,
        ValueModel::FloatArray(xs) => m.key == seq![0x41u8, 0x46u8] && xs.len() > 0 && (forall|
            j: int,
        | 0 <= j < xs.len() ==> float_text_valid(#[trigger] xs[j])),
        ValueModel::Text(t) => m.key != seq![0x4eu8, 0x53u8] && m.key != seq![0x44u8, 0x50u8]
            && m.key != seq![0x41u8, 0x46u8] && text_valid(t),
        ValueModel::Flag => true,
    }
}

/// Every field is canonical.
pub open spec fn info_canonical(ms: Seq<FieldModel>) -> bool {
    forall|i: int| 0 <= i < ms.len() ==> field_canonical(#[trigger] ms[i])
}

/// Finding from a later start is finding in the suffix.
proof fn lemma_find_byte_shift(s: Seq<u8>, b: u8, p: int, i: int)
    requires
        0 <= p,
        0 <= i,
        p + i <= s.len(),
    ensures
        find_byte(s, b, p + i) == p + find_byte(s.skip(p), b, i),
    decreases s.len() - p - i,
{
    if p + i < s.len() {
        assert(s.skip(p)[i] == s[p + i]);
        if s[p + i] != b {
            lemma_find_byte_shift(s, b, p, i + 1);
        }
    }
}

/// A search that runs over a `b`-free stretch stops at its end: at the
/// `b` just past it, or at the end of the input.
proof fn lemma_find_after_prefix(s: Seq<u8>, b: u8, i: int, n: int)
    requires
        0 <= i,
        0 <= n,
        i + n <= s.len(),
        forall|t: int| 0 <= t < n ==> #[trigger] s[i + t] != b,
        i + n == s.len() || s[i + n] == b,
    ensures
        find_byte(s, b, i) == i + n,
    decreases n,
{
    if n == 0 {
    } else {
        assert(s[i + 0] != b);
        assert forall|t: int| 0 <= t < n - 1 implies #[trigger] s[i + 1 + t] != b by {
            assert(s[i + (t + 1)] != b);
        }
        lemma_find_after_prefix(s, b, i + 1, n - 1);
    }
}

/// A digit string's digits decode to the number they spell.
proof fn lemma_dec_digits_val(n: nat)
    ensures
        dec_val(dec_digits(n)) == n,
        dec_digits(n).len() >= 1,
    decreases n,
{
    if n < 10 {
        let s = dec_digits(n);
        assert(s =~= seq![(0x30 + n) as u8]);
        assert(s.drop_last() =~= Seq::<u8>::empty());
        assert(dec_val(s.drop_last()) == 0);
        assert(s.last() == (0x30 + n) as u8);
        assert(dec_val(s) == 0 * 10 + (s.last() - 0x30));
    } else {
        lemma_dec_digits_val(n / 10);
        let s = dec_digits(n);
        assert(s.drop_last() =~= dec_digits(n / 10));
        assert(s.last() == (0x30 + n % 10) as u8);
        assert(dec_val(s) == dec_val(s.drop_last()) * 10 + (s.last() - 0x30));
    }
}

/// The decimal text of a 32-bit integer is a valid integer numeral and
/// decodes to the integer.
proof fn lemma_int_text_round(n: int)
    requires
        -0x8000_0000 <= n <= 0x7fff_ffff,
    ensures
        int_seg_valid(int_text(n)),
        int_seg_val(int_text(n)) == n,
        int_text(n).len() >= 1,
        forall|t: int| 0 <= t < int_text(n).len() ==> is_float_byte(#[trigger] int_text(n)[t])
            && int_text(n)[t] != 0x3b && int_text(n)[t] != 0x3d && int_text(n)[t] < 128,
{
    if n < 0 {
        let d = dec_digits((-n) as nat);
        lemma_dec_digits_val((-n) as nat);
        lemma_dec_digits_ascii((-n) as nat);
        let s = int_text(n);
        assert(s[0] == 0x2d);
        assert(s.skip(1) =~= d);
        assert(int_seg_val(s) == -dec_val(d));
    } else {
        let d = dec_digits(n as nat);
        lemma_dec_digits_val(n as nat);
        lemma_dec_digits_ascii(n as nat);
        let s = int_text(n);
        assert(s == d);
        assert(is_digit(s[0]));
        assert(s[0] != 0x2d);
        assert(int_seg_val(s) == dec_val(d));
    }
}

/// The text of a canonical value holds no field or key separator.
proof fn lemma_value_display_clean(v: ValueModel)
    requires
        match v {
            ValueModel::Integer(n) => -0x8000_0000 <= n <= 0x7fff_ffff,
            ValueModel::FloatArray(xs) => forall|j: int|
                0 <= j < xs.len() ==> float_text_valid(#[trigger] xs[j]),
            ValueModel::Text(t) => text_valid(t),
            ValueModel::Flag => true,
        },
    ensures
        forall|t: int|
            0 <= t < value_display(v).len() ==> (#[trigger] value_display(v)[t]) != 0x3b
                && value_display(v)[t] != 0x3d,
{
    match v {
        ValueModel::Integer(n) => {
            lemma_int_text_round(n);
        },
        ValueModel::FloatArray(xs) => {
            lemma_join_clean(xs, 0);
        },
        ValueModel::Text(t) => {},
        ValueModel::Flag => {},
    }
}

/// A joined numeral list holds only numeral bytes and commas.
proof fn lemma_join_clean(xs: Seq<Seq<u8>>, i: int)
    requires
        forall|j: int| 0 <= j < xs.len() ==> float_text_valid(#[trigger] xs[j]),
    ensures
        forall|t: int|
            0 <= t < join_from(xs, i).len() ==> is_float_byte(#[trigger] join_from(xs, i)[t])
                || join_from(xs, i)[t] == 0x2c,
    decreases xs.len() - i,
{
    if i < 0 || i >= xs.len() {
    } else if i == xs.len() - 1 {
        assert forall|t: int| 0 <= t < join_from(xs, i).len() implies is_float_byte(
            #[trigger] join_from(xs, i)[t],
        ) || join_from(xs, i)[t] == 0x2c by {
            assert(float_text_valid(xs[i]));
            assert(join_from(xs, i)[t] == xs[i][t]);
        }
    } else {
        lemma_join_clean(xs, i + 1);
        assert forall|t: int| 0 <= t < join_from(xs, i).len() implies is_float_byte(
            #[trigger] join_from(xs, i)[t],
        ) || join_from(xs, i)[t] == 0x2c by {
            assert(float_text_valid(xs[i]));
            let hd = xs[i];
            if t < hd.len() {
                assert(join_from(xs, i)[t] == hd[t]);
            } else if t == hd.len() {
                assert(join_from(xs, i)[t] == 0x2c);
            } else {
                assert(join_from(xs, i)[t] == join_from(xs, i + 1)[t - hd.len() - 1]);
            }
        }
    }
}

/// The text of a canonical field holds no field separator and starts
/// with its key.
proof fn lemma_field_display_clean(m: FieldModel)
    requires
        field_canonical(m),
    ensures
        field_display(m).len() >= m.key.len() >= 1,
        forall|t: int| 0 <= t < field_display(m).len() ==> (#[trigger] field_display(m)[t])
            != 0x3b,
{
    lemma_value_display_clean(m.value);
    assert forall|t: int| 0 <= t < field_display(m).len() implies (#[trigger] field_display(
        m,
    )[t]) != 0x3b by {
        let fd = field_display(m);
        match m.value {
            ValueModel::Flag => {
                assert(fd[t] == m.key[t]);
                assert(is_key_byte(m.key[t]));
            },
            _ => {
                if t < m.key.len() {
                    assert(fd[t] == m.key[t]);
                    assert(is_key_byte(m.key[t]));
                } else if t == m.key.len() {
                    assert(fd[t] == 0x3d);
                } else {
                    assert(fd[t] == value_display(m.value)[t - m.key.len() - 1]);
                }
            },
        }
    }
}

/// Parsing a joined numeral list from any start recovers the list.
proof fn lemma_parse_floats_round(xs: Seq<Seq<u8>>, j: int, s: Seq<u8>, i: int)
    requires
        forall|t: int| 0 <= t < xs.len() ==> float_text_valid(#[trigger] xs[t]),
        0 <= j < xs.len(),
        0 <= i <= s.len(),
        s.subrange(i, s.len() as int) == join_from(xs, j),
    ensures
        spec_parse_floats(s, i) == Some(xs.skip(j)),
    decreases xs.len() - j,
{
    let hd = xs[j];
    assert(float_text_valid(hd));
    assert(join_from(xs, j).len() >= hd.len());
    assert forall|t: int| 0 <= t < hd.len() implies #[trigger] s[i + t] != 0x2c by {
        assert(s.subrange(i, s.len() as int)[t] == s[i + t]);
        assert(join_from(xs, j)[t] == hd[t]);
        assert(is_float_byte(hd[t]));
    }
    if j == xs.len() - 1 {
        assert(s.len() == i + hd.len());
        lemma_find_after_prefix(s, 0x2c, i, hd.len() as int);
        let k = find_byte(s, 0x2c, i);
        assert(s.subrange(i, k) =~= hd);
        assert(Some(seq![hd]) == Some(xs.skip(j))) by {
            assert(seq![hd] =~= xs.skip(j));
        }
    } else {
        assert(join_from(xs, j) == hd + seq![0x2cu8] + join_from(xs, j + 1));
        assert(s[i + hd.len()] == 0x2c) by {
            assert(s.subrange(i, s.len() as int)[hd.len() as int] == s[i + hd.len()]);
        }
        lemma_find_after_prefix(s, 0x2c, i, hd.len() as int);
        let k = find_byte(s, 0x2c, i);
        assert(s.subrange(i, k) =~= hd);
        assert(s.subrange(k + 1, s.len() as int) =~= join_from(xs, j + 1)) by {
            assert forall|t: int|
                0 <= t < s.len() - k - 1 implies #[trigger] s.subrange(
                k + 1,
                s.len() as int,
            )[t] == join_from(xs, j + 1)[t] by {
                assert(s.subrange(i, s.len() as int)[hd.len() + 1 + t] == s[k + 1 + t]);
            }
        }
        lemma_parse_floats_round(xs, j + 1, s, k + 1);
        assert(seq![hd] + xs.skip(j + 1) =~= xs.skip(j));
    }
}

/// Parsing the text of a canonical field recovers the field.
proof fn lemma_parse_field_round(m: FieldModel)
    requires
        field_canonical(m),
    ensures
        spec_parse_field(field_display(m)) == Some(m),
{
    let fd = field_display(m);
    lemma_value_display_clean(m.value);
    assert(seq![0x4eu8, 0x53u8] != seq![0x41u8, 0x46u8]) by {
        assert(seq![0x4eu8, 0x53u8][0] != seq![0x41u8, 0x46u8][0]);
    }
    assert(seq![0x44u8, 0x50u8] != seq![0x41u8, 0x46u8]) by {
        assert(seq![0x44u8, 0x50u8][0] != seq![0x41u8, 0x46u8][0]);
    }
    match m.value {
        ValueModel::Flag => {
            assert(fd == m.key);
            assert forall|t: int| 0 <= t < fd.len() implies #[trigger] fd[t] != 0x3d by {
                assert(is_key_byte(m.key[t]));
            }
            lemma_find_after_prefix(fd, 0x3d, 0, fd.len() as int);
            assert(fd.subrange(0, fd.len() as int) =~= m.key);
        },
        _ => {
            let vd = value_display(m.value);
            assert(fd == m.key + seq![0x3du8] + vd);
            assert forall|t: int| 0 <= t < m.key.len() implies #[trigger] fd[t] != 0x3d by {
                assert(fd[t] == m.key[t]);
                assert(is_key_byte(m.key[t]));
            }
            assert(fd[m.key.len() as int] == 0x3d);
            lemma_find_after_prefix(fd, 0x3d, 0, m.key.len() as int);
            let e = find_byte(fd, 0x3d, 0);
            assert(fd.subrange(0, e) =~= m.key);
            assert(fd.subrange(e + 1, fd.len() as int) =~= vd);
            match m.value {
                ValueModel::Integer(n) => {
                    lemma_int_text_round(n);
                },
                ValueModel::FloatArray(xs) => {
                    assert(vd.subrange(0, vd.len() as int) =~= join_from(xs, 0));
                    lemma_parse_floats_round(xs, 0, vd, 0);
                    assert(xs.skip(0) =~= xs);
                },
                ValueModel::Text(t) => {},
                ValueModel::Flag => {},
            }
        },
    }
}

/// Parsing the displayed fields from any field on recovers them.
proof fn lemma_parse_fields_round(ms: Seq<FieldModel>, j: int, s: Seq<u8>, i: int)
    requires
        info_canonical(ms),
        0 <= j < ms.len(),
        0 <= i <= s.len(),
        s.subrange(i, s.len() as int) == info_display_from(ms, j),
    ensures
        spec_parse_fields(s, i) == Some(ms.skip(j)),
    decreases ms.len() - j,
{
    let fd = field_display(ms[j]);
    assert(field_canonical(ms[j]));
    lemma_field_display_clean(ms[j]);
    lemma_parse_field_round(ms[j]);
    assert(info_display_from(ms, j).len() >= fd.len());
    assert forall|t: int| 0 <= t < fd.len() implies #[trigger] s[i + t] != 0x3b by {
        assert(s.subrange(i, s.len() as int)[t] == s[i + t]);
        assert(info_display_from(ms, j)[t] == fd[t]);
    }
    if j == ms.len() - 1 {
        assert(s.len() == i + fd.len());
        lemma_find_after_prefix(s, 0x3b, i, fd.len() as int);
        let k = find_byte(s, 0x3b, i);
        assert(s.subrange(i, k) =~= fd);
        assert(seq![ms[j]] =~= ms.skip(j));
    } else {
        assert(info_display_from(ms, j) == fd + seq![0x3bu8] + info_display_from(ms, j + 1));
        assert(s[i + fd.len()] == 0x3b) by {
            assert(s.subrange(i, s.len() as int)[fd.len() as int] == s[i + fd.len()]);
        }
        lemma_find_after_prefix(s, 0x3b, i, fd.len() as int);
        let k = find_byte(s, 0x3b, i);
        assert(s.subrange(i, k) =~= fd);
        assert(s.subrange(k + 1, s.len() as int) =~= info_display_from(ms, j + 1)) by {
            assert forall|t: int|
                0 <= t < s.len() - k - 1 implies #[trigger] s.subrange(
                k + 1,
                s.len() as int,
            )[t] == info_display_from(ms, j + 1)[t] by {
                assert(s.subrange(i, s.len() as int)[fd.len() + 1 + t] == s[k + 1 + t]);
            }
        }
        lemma_parse_fields_round(ms, j + 1, s, k + 1);
        assert(seq![ms[j]] + ms.skip(j + 1) =~= ms.skip(j));
    }
}

/// Displaying a canonical INFO column and parsing the text back yields
/// the same column: the textual form is a faithful round trip.
pub proof fn lemma_display_parse_round_trip(ms: Seq<FieldModel>)
    requires
        info_canonical(ms),
    ensures
        spec_parse_info(info_display(ms)) == Ok::<Seq<FieldModel>, ParseError>(ms),
{
    if ms.len() == 0 {
        assert(info_display(ms) == seq![0x2eu8]);
        assert(ms =~= Seq::<FieldModel>::empty());
    } else {
        let bs = info_display(ms);
        assert(field_canonical(ms[0]));
        lemma_field_display_clean(ms[0]);
        assert(bs.len() >= 1);
        assert(bs != seq![0x2eu8]) by {
            if bs == seq![0x2eu8] {
                let fd = field_display(ms[0]);
                if ms.len() == 1 {
                    assert(bs == fd);
                    match ms[0].value {
                        ValueModel::Flag => {
                            assert(ms[0].key =~= seq![0x2eu8]);
                        },
                        _ => {
                            assert(fd.len() >= ms[0].key.len() + 1);
                            assert(ms[0].key.len() == 0);
                        },
                    }
                } else {
                    assert(bs == fd + seq![0x3bu8] + info_display_from(ms, 1));
                    assert(bs.len() >= fd.len() + 1);
                    assert(fd.len() == 0);
                }
            }
        }
        assert(bs.subrange(0, bs.len() as int) =~= info_display_from(ms, 0));
        lemma_parse_fields_round(ms, 0, bs, 0);
        assert(ms.skip(0) =~= ms);
    }
}

} // verus!
