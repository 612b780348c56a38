//! The header record describing one alternative allele: a symbol, a
//! description, and any further fields, parsed from the
//! `<ID=...,Description="...",...>` map form.

use vstd::prelude::*;

use crate::info::{
    all_bytes_ascii, ascii_to_string, copy_range, find_byte, find_byte_exec, is_key_byte,
    key_valid, lemma_find_byte_bounds, str_bytes, vec_as_slice,
};

verus! {

/// The contents of an ordered string-to-string field map, in insertion
/// order.
pub uninterp spec fn index_map_entries(m: indexmap::IndexMap<String, String>) -> Seq<
    (Seq<char>, Seq<char>),
>;

#[verifier::external_type_specification]
#[verifier::external_body]
#[verifier::reject_recursive_types(K)]
#[verifier::reject_recursive_types(V)]
#[verifier::reject_recursive_types(S)]
pub struct ExIndexMap<K, V, S>(indexmap::IndexMap<K, V, S>);

/// Relies on IndexMap::new: a fresh map holds nothing.
#[verifier::external_body]
pub(crate) fn im_new() -> (r: indexmap::IndexMap<String, String>)
    ensures
        index_map_entries(r) == Seq::<(Seq<char>, Seq<char>)>::empty(),
{
    indexmap::IndexMap::new()
}

/// Relies on IndexMap::insert: a new key is appended last; an existing
/// key keeps its place, has its value replaced, and the old value comes
/// back.
#[verifier::external_body]
pub(crate) fn im_insert(m: &mut indexmap::IndexMap<String, String>, k: String, v: String) -> (r: Option<
    String,
>)
    ensures
        (r is Some) == (exists|i: int|
            0 <= i < index_map_entries(*old(m)).len() && (#[trigger] index_map_entries(
                *old(m),
            )[i]).0 == k@),
        r matches Some(prev) ==> exists|i: int|
            0 <= i < index_map_entries(*old(m)).len() && (#[trigger] index_map_entries(
                *old(m),
            )[i]).0 == k@ && index_map_entries(*old(m))[i].1 == prev@ && index_map_entries(
                *final(m),
            ) == index_map_entries(*old(m)).update(i, (k@, v@)),
        r is None ==> index_map_entries(*final(m)) == index_map_entries(*old(m)).push((k@, v@)),
{
    m.insert(k, v)
}

/// Relies on IndexMap::len: how many entries the map holds.
#[verifier::external_body]
pub fn im_len(m: &indexmap::IndexMap<String, String>) -> (r: usize)
    ensures
        r == index_map_entries(*m).len(),
{
    m.len()
}

/// A structural variant kind, as named by a symbol's first token.
#[derive(Clone, Copy, Debug, PartialEq, Eq, Structural)]
pub enum SvType {
    /// A deletion (`DEL`).
    Deletion,
    /// An insertion (`INS`).
    Insertion,
    /// A duplication (`DUP`).
    Duplication,
    /// An inversion (`INV`).
    Inversion,
    /// A copy-number variation (`CNV`).
    CopyNumberVariation,
    /// A breakend (`BND`).
    Breakend,
}

/// A structural variant symbol: its kind plus any subtype tokens.
#[derive(Clone, Debug, PartialEq)]
pub struct StructuralVariant {
    /// The kind named by the first token.
    pub ty: SvType,
    /// The remaining colon-separated tokens.
    pub subtypes: Vec<String>,
}

impl StructuralVariant {
    /// A symbol of the given kind with no subtypes.
    pub fn new(ty: SvType) -> (r: StructuralVariant)
        ensures
            r.ty == ty,
            r.subtypes@ == Seq::<String>::empty(),
    {
        StructuralVariant { ty, subtypes: Vec::new() }
    }
}

/// An alternate-allele symbol.
#[derive(Clone, Debug, PartialEq)]
pub enum Symbol {
    /// A structural variant symbol.
    StructuralVariant(StructuralVariant),
}

/// An alternative-allele header record: its description and any further
/// fields, in order.
#[derive(Debug, PartialEq)]
pub struct AlternativeAllele {
    /// The required description.
    pub description: String,
    /// Every field other than the id and the description, in order.
    pub other_fields: indexmap::IndexMap<String, String>,
}

impl AlternativeAllele {
    /// A record with the given description and no other fields.
    pub fn new(description: &str) -> (r: AlternativeAllele)
        ensures
            r.description@ == description@,
            index_map_entries(r.other_fields) == Seq::<(Seq<char>, Seq<char>)>::empty(),
    {
        AlternativeAllele { description: description.to_owned(), other_fields: im_new() }
    }
}

/// An error returned when an alternative-allele map value fails to
/// parse.
#[derive(Clone, Debug, PartialEq)]
pub enum ParseError {
    /// The surrounding `<`...`>` map form is broken.
    InvalidMap,
    /// A field is broken: a separator or `=` is misplaced.
    InvalidField,
    /// A field key is broken.
    InvalidKey,
    /// A field value is broken.
    InvalidValue,
    /// No `ID` field was given.
    MissingId,
    /// The `ID` field holds no valid symbol.
    InvalidId,
    /// No `Description` field was given.
    MissingDescription,
    /// The `Description` field is broken.
    InvalidDescription,
    /// The `IDX` field holds no valid number.
    InvalidIdx,
    /// Another field's value is broken.
    InvalidOther,
    /// A field appeared twice.
    DuplicateTag,
}

impl ParseError {
    /// A short human-readable description of the error.
    pub fn message(&self) -> &'static str {
        match self {
            ParseError::InvalidMap => "invalid map",
            ParseError::InvalidField => "invalid field",
            ParseError::InvalidKey => "invalid key",
            ParseError::InvalidValue => "invalid value",
            ParseError::MissingId => "missing ID",
            ParseError::InvalidId => "invalid ID",
            ParseError::MissingDescription => "missing description",
            ParseError::InvalidDescription => "invalid description",
            ParseError::InvalidIdx => "invalid IDX",
            ParseError::InvalidOther => "invalid other",
            ParseError::DuplicateTag => "duplicate tag",
        }
    }
}

/// The kind named by a symbol's first token, if it names one.
pub open spec fn spec_sv_type(tok: Seq<u8>) -> Option<SvType> {
    if tok == seq![0x44u8, 0x45u8, 0x4cu8] {
        Some(SvType::Deletion)
    } else if tok == seq![0x49u8, 0x4eu8, 0x53u8] {
        Some(SvType::Insertion)
    } else if tok == seq![0x44u8, 0x55u8, 0x50u8] {
        Some(SvType::Duplication)
    } else if tok == seq![0x49u8, 0x4eu8, 0x56u8] {
        Some(SvType::Inversion)
    } else if tok == seq![0x43u8, 0x4eu8, 0x56u8] {
        Some(SvType::CopyNumberVariation)
    } else if tok == seq![0x42u8, 0x4eu8, 0x44u8] {
        Some(SvType::Breakend)
    } else {
        None
    }
}

/// Whether a byte can appear in a bare (unquoted) field value.
pub open spec fn is_bare_byte(b: u8) -> bool {
    b < 128 && b != 0x2c && b != 0x3e && b != 0x22 && b != 0x3d && b != 0x3c
}

/// Whether a byte can appear inside a quoted field value.
pub open spec fn is_quoted_byte(b: u8) -> bool {
    b < 128 && b != 0x22
}

/// The parsed form of an alternative-allele record.
pub struct AaModel {
    /// The symbol's kind.
    pub sv: SvType,
    /// The symbol's subtype tokens.
    pub subtypes: Seq<Seq<u8>>,
    /// The description text.
    pub description: Seq<u8>,
    /// The remaining fields, in order.
    pub others: Seq<(Seq<u8>, Seq<u8>)>,
}

/// What parsing a symbol's subtype tokens from `i` on yields; at `i`
/// the input is either exhausted or sits on a `:`.
pub open spec fn spec_parse_subtypes(s: Seq<u8>, i: int) -> Option<Seq<Seq<u8>>>
    decreases s.len() - i,
    via spec_parse_subtypes_dec
{
    if i < 0 || i >= s.len() {
        Some(Seq::empty())
    } else {
        let k = find_byte(s, 0x3a, i + 1);
        let tok = s.subrange(i + 1, k);
        if tok.len() == 0 || !all_bytes_ascii(tok) {
            None
        } else {
            match spec_parse_subtypes(s, k) {
                Some(rest) => Some(seq![tok] + rest),
                None => None,
            }
        }
    }
}

#[via_fn]
proof fn spec_parse_subtypes_dec(s: Seq<u8>, i: int) {
    if 0 <= i < s.len() {
        lemma_find_byte_bounds(s, 0x3a, i + 1);
    }
}

/// What parsing a symbol text yields: its kind and subtype tokens.
pub open spec fn spec_parse_symbol(val: Seq<u8>) -> Option<(SvType, Seq<Seq<u8>>)> {
    let k = find_byte(val, 0x3a, 0);
    match spec_sv_type(val.subrange(0, k)) {
        None => Option::None,
        Some(t) => match spec_parse_subtypes(val, k) {
            Some(toks) => Some((t, toks)),
            None => Option::None,
        },
    }
}

/// Where one field's value ends: the value's text and the offset just
/// past it, or nothing if the value is malformed.
pub open spec fn spec_parse_field_value(s: Seq<u8>, v0: int) -> Option<(Seq<u8>, int)> {
    if v0 < s.len() && s[v0] == 0x22 {
        let q = find_byte(s, 0x22, v0 + 1);
        if q >= s.len() {
            Option::None
        } else {
            let val = s.subrange(v0 + 1, q);
            if forall|m: int| 0 <= m < val.len() ==> is_quoted_byte(#[trigger] val[m]) {
                Some((val, q + 1))
            } else {
                Option::None
            }
        }
    } else {
        let c = find_byte(s, 0x2c, v0);
        let val = s.subrange(v0, c);
        if forall|m: int| 0 <= m < val.len() ==> is_bare_byte(#[trigger] val[m]) {
            Some((val, c))
        } else {
            Option::None
        }
    }
}

/// What parsing the fields of the map body from `i` on yields, given
/// what earlier fields established.
pub open spec fn spec_parse_aa_fields(
    s: Seq<u8>,
    i: int,
    id: Option<(SvType, Seq<Seq<u8>>)>,
    desc: Option<Seq<u8>>,
    others: Seq<(Seq<u8>, Seq<u8>)>,
) -> Result<AaModel, ParseError>
    decreases s.len() - i, 0int,
    via spec_parse_aa_fields_dec
{
    if i < 0 || i > s.len() {
        Err(ParseError::InvalidField)
    } else if i == s.len() {
        match id {
            Option::None => Err(ParseError::MissingId),
            Some(sym) => match desc {
                Option::None => Err(ParseError::MissingDescription),
                Some(d) => Ok(
                    AaModel { sv: sym.0, subtypes: sym.1, description: d, others },
                ),
            },
        }
    } else {
        let e = find_byte(s, 0x3d, i);
        let key = s.subrange(i, e);
        if !key_valid(key) {
            Err(ParseError::InvalidKey)
        } else if e >= s.len() {
            Err(ParseError::InvalidValue)
        } else {
            match spec_parse_field_value(s, e + 1) {
                Option::None => Err(ParseError::InvalidValue),
                Some(vn) => spec_parse_aa_dispatch(s, key, vn.0, vn.1, id, desc, others),
            }
        }
    }
}

#[via_fn]
proof fn spec_parse_aa_fields_dec(
    s: Seq<u8>,
    i: int,
    id: Option<(SvType, Seq<Seq<u8>>)>,
    desc: Option<Seq<u8>>,
    others: Seq<(Seq<u8>, Seq<u8>)>,
) {
    if 0 <= i < s.len() {
        lemma_find_byte_bounds(s, 0x3d, i);
        let e = find_byte(s, 0x3d, i);
        if e < s.len() {
            if e + 1 < s.len() && s[e + 1] == 0x22 {
                lemma_find_byte_bounds(s, 0x22, e + 2);
            } else {
                lemma_find_byte_bounds(s, 0x2c, e + 1);
            }
        }
    }
}

/// Folds one parsed field into the record state and continues.
pub open spec fn spec_parse_aa_dispatch(
    s: Seq<u8>,
    key: Seq<u8>,
    val: Seq<u8>,
    after: int,
    id: Option<(SvType, Seq<Seq<u8>>)>,
    desc: Option<Seq<u8>>,
    others: Seq<(Seq<u8>, Seq<u8>)>,
) -> Result<AaModel, ParseError>
    decreases s.len() - after, 1int,
{
    if !(after == s.len() || (after < s.len() && s[after] == 0x2c && after + 1 <= s.len())) {
        Err(ParseError::InvalidField)
    } else if after < s.len() && after + 1 == s.len() {
        Err(ParseError::InvalidKey)
    } else {
        let next = if after == s.len() { s.len() as int } else { after + 1 };
        if key == seq![0x49u8, 0x44u8] {
            match spec_parse_symbol(val) {
                Option::None => Err(ParseError::InvalidId),
                Some(sym) => {
                    if id is Some {
                        Err(ParseError::DuplicateTag)
                    } else {
                        spec_parse_aa_fields(s, next, Some(sym), desc, others)
                    }
                },
            }
        } else if key == str_bytes("Description"@) {
            if desc is Some {
                Err(ParseError::DuplicateTag)
            } else {
                spec_parse_aa_fields(s, next, id, Some(val), others)
            }
        } else {
            if exists|j: int| 0 <= j < others.len() && (#[trigger] others[j]).0 == key {
                Err(ParseError::DuplicateTag)
            } else {
                spec_parse_aa_fields(s, next, id, desc, others.push((key, val)))
            }
        }
    }
}

/// What parsing a whole alternative-allele map value yields.
pub open spec fn spec_parse_aa(bs: Seq<u8>) -> Result<AaModel, ParseError> {
    if bs.len() < 2 || bs[0] != 0x3c || bs[bs.len() - 1] != 0x3e {
        Err(ParseError::InvalidMap)
    } else {
        spec_parse_aa_fields(
            bs.subrange(1, bs.len() - 1),
            0,
            Option::None,
            Option::None,
            Seq::empty(),
        )
    }
}

/// The model of a symbol option held while parsing.
pub open spec fn sv_model(o: Option<StructuralVariant>) -> Option<(SvType, Seq<Seq<u8>>)> {
    match o {
        Option::None => Option::None,
        Some(sv) => Some((sv.ty, sv.subtypes@.map_values(|s: String| str_bytes(s@)))),
    }
}

/// The model of a description option held while parsing.
pub open spec fn desc_model(o: Option<String>) -> Option<Seq<u8>> {
    match o {
        Option::None => Option::None,
        Some(d) => Some(str_bytes(d@)),
    }
}

/// The byte model of ordered map entries.
pub open spec fn entries_model(m: indexmap::IndexMap<String, String>) -> Seq<
    (Seq<u8>, Seq<u8>),
> {
    index_map_entries(m).map_values(|e: (Seq<char>, Seq<char>)| (str_bytes(e.0), str_bytes(e.1)))
}

/// Every entry of the map is seven-bit text.
pub open spec fn entries_ascii(m: indexmap::IndexMap<String, String>) -> bool {
    forall|j: int|
        0 <= j < index_map_entries(m).len() ==> vstd::utf8::is_ascii_chars(
            (#[trigger] index_map_entries(m)[j]).0,
        ) && vstd::utf8::is_ascii_chars(index_map_entries(m)[j].1)
}

/// Parses a symbol's subtype tokens from `i` on.
fn parse_subtypes(v: &Vec<u8>, i: usize) -> (r: Option<Vec<String>>)
    requires
        i <= v@.len(),
    ensures
        (r is Some) == (spec_parse_subtypes(v@, i as int) is Some),
        r matches Some(toks) ==> spec_parse_subtypes(v@, i as int) == Some(
            toks@.map_values(|s: String| str_bytes(s@)),
        ) && (forall|j: int|
            0 <= j < toks@.len() ==> vstd::utf8::is_ascii_chars((#[trigger] toks@[j])@)),
    decreases v@.len() - i,
{
    if i >= v.len() {
        let out: Vec<String> = Vec::new();
        proof {
            assert(out@.map_values(|s: String| str_bytes(s@)) =~= Seq::<Seq<u8>>::empty());
        }
        return Some(out);
    }
    let k = find_byte_exec(v, 0x3a, i + 1);
    if k == i + 1 {
        return Option::None;
    }
    let ghost tok = v@.subrange(i + 1, k as int);
    let mut j: usize = i + 1;
    let mut good = true;
    while j < k && good
        invariant
            i + 1 <= j <= k <= v@.len(),
            tok == v@.subrange(i + 1, k as int),
            good ==> forall|m: int| 0 <= m < j - i - 1 ==> (#[trigger] tok[m]) < 128,
            !good ==> !all_bytes_ascii(tok),
        decreases k - j + (if good { 1int } else { 0int }),
    {
        proof {
            assert(tok[j - i - 1] == v@[j as int]);
        }
        if v[j] >= 128 {
            good = false;
        } else {
            j += 1;
        }
    }
    if !good {
        return Option::None;
    }
    let text = copy_range(vec_as_slice(v), i + 1, k);
    let s = ascii_to_string(text);
    proof {
        assert(str_bytes(s@) =~= tok);
    }
    match parse_subtypes(v, k) {
        Option::None => Option::None,
        Some(rest) => {
            let mut out = rest;
            out.insert(0, s);
            proof {
                let prev = spec_parse_subtypes(v@, k as int);
                assert(out@.map_values(|s: String| str_bytes(s@)) =~= seq![tok] + prev->0);
            }
            Some(out)
        },
    }
}

/// Parses a symbol text: a structural-variant kind, then subtypes.
fn parse_symbol(v: &Vec<u8>) -> (r: Option<StructuralVariant>)
    ensures
        (r is Some) == (spec_parse_symbol(v@) is Some),
        r matches Some(sv) ==> spec_parse_symbol(v@) == Some(
            (sv.ty, sv.subtypes@.map_values(|s: String| str_bytes(s@))),
        ) && (forall|j: int|
            0 <= j < sv.subtypes@.len() ==> vstd::utf8::is_ascii_chars(
                (#[trigger] sv.subtypes@[j])@,
            )),
{
    let k = find_byte_exec(v, 0x3a, 0);
    let ghost first = v@.subrange(0, k as int);
    let ty: SvType = if k == 3 {
        let a = v[0];
        let b = v[1];
        let c = v[2];
        proof {
            assert(first =~= seq![v@[0], v@[1], v@[2]]);
        }
        if a == 0x44 && b == 0x45 && c == 0x4c {
            proof {
                assert(first =~= seq![0x44u8, 0x45u8, 0x4cu8]);
            }
            SvType::Deletion
        } else if a == 0x49 && b == 0x4e && c == 0x53 {
            proof {
                assert(first =~= seq![0x49u8, 0x4eu8, 0x53u8]);
            }
            SvType::Insertion
        } else if a == 0x44 && b == 0x55 && c == 0x50 {
            proof {
                assert(first =~= seq![0x44u8, 0x55u8, 0x50u8]);
            }
            SvType::Duplication
        } else if a == 0x49 && b == 0x4e && c == 0x56 {
            proof {
                assert(first =~= seq![0x49u8, 0x4eu8, 0x56u8]);
            }
            SvType::Inversion
        } else if a == 0x43 && b == 0x4e && c == 0x56 {
            proof {
                assert(first =~= seq![0x43u8, 0x4eu8, 0x56u8]);
            }
            SvType::CopyNumberVariation
        } else if a == 0x42 && b == 0x4e && c == 0x44 {
            proof {
                assert(first =~= seq![0x42u8, 0x4eu8, 0x44u8]);
            }
            SvType::Breakend
        } else {
            proof {
                lemma_first_not_sv(first);
            }
            return Option::None;
        }
    } else {
        proof {
            lemma_len_not_sv(first);
        }
        return Option::None;
    };
    match parse_subtypes(v, k) {
        Option::None => Option::None,
        Some(toks) => Some(StructuralVariant { ty, subtypes: toks }),
    }
}

/// A three-byte token that names no kind yields no kind.
proof fn lemma_first_not_sv(first: Seq<u8>)
    requires
        first.len() == 3,
        !(first[0] == 0x44 && first[1] == 0x45 && first[2] == 0x4c),
        !(first[0] == 0x49 && first[1] == 0x4e && first[2] == 0x53),
        !(first[0] == 0x44 && first[1] == 0x55 && first[2] == 0x50),
        !(first[0] == 0x49 && first[1] == 0x4e && first[2] == 0x56),
        !(first[0] == 0x43 && first[1] == 0x4e && first[2] == 0x56),
        !(first[0] == 0x42 && first[1] == 0x4e && first[2] == 0x44),
    ensures
        spec_sv_type(first) is None,
{
    if first == seq![0x44u8, 0x45u8, 0x4cu8] {
        assert(first[0] == 0x44 && first[1] == 0x45 && first[2] == 0x4c);
    }
    if first == seq![0x49u8, 0x4eu8, 0x53u8] {
        assert(first[0] == 0x49 && first[1] == 0x4e && first[2] == 0x53);
    }
    if first == seq![0x44u8, 0x55u8, 0x50u8] {
        assert(first[0] == 0x44 && first[1] == 0x55 && first[2] == 0x50);
    }
    if first == seq![0x49u8, 0x4eu8, 0x56u8] {
        assert(first[0] == 0x49 && first[1] == 0x4e && first[2] == 0x56);
    }
    if first == seq![0x43u8, 0x4eu8, 0x56u8] {
        assert(first[0] == 0x43 && first[1] == 0x4e && first[2] == 0x56);
    }
    if first == seq![0x42u8, 0x4eu8, 0x44u8] {
        assert(first[0] == 0x42 && first[1] == 0x4e && first[2] == 0x44);
    }
}

/// A token that is not three bytes long names no kind.
proof fn lemma_len_not_sv(first: Seq<u8>)
    requires
        first.len() != 3,
    ensures
        spec_sv_type(first) is None,
{
    if first == seq![0x44u8, 0x45u8, 0x4cu8] {
        assert(first.len() == 3);
    }
    if first == seq![0x49u8, 0x4eu8, 0x53u8] {
        assert(first.len() == 3);
    }
    if first == seq![0x44u8, 0x55u8, 0x50u8] {
        assert(first.len() == 3);
    }
    if first == seq![0x49u8, 0x4eu8, 0x56u8] {
        assert(first.len() == 3);
    }
    if first == seq![0x43u8, 0x4eu8, 0x56u8] {
        assert(first.len() == 3);
    }
    if first == seq![0x42u8, 0x4eu8, 0x44u8] {
        assert(first.len() == 3);
    }
}

/// Before the first occurrence, the sought byte does not appear.
pub proof fn lemma_find_byte_first(s: Seq<u8>, b: u8, i: int)
    requires
        0 <= i <= s.len(),
    ensures
        forall|m: int| i <= m < find_byte(s, b, i) ==> #[trigger] s[m] != b,
    decreases s.len() - i,
{
    if i < s.len() && s[i] != b {
        lemma_find_byte_first(s, b, i + 1);
    }
}

/// Seven-bit texts with equal byte forms are equal.
proof fn lemma_str_bytes_injective(a: Seq<char>, b: Seq<char>)
    requires
        vstd::utf8::is_ascii_chars(a),
        vstd::utf8::is_ascii_chars(b),
        str_bytes(a) == str_bytes(b),
    ensures
        a == b,
{
    assert(str_bytes(a).len() == a.len());
    assert(str_bytes(b).len() == b.len());
    assert forall|m: int| 0 <= m < a.len() implies a[m] == b[m] by {
        assert(str_bytes(a)[m] == a[m] as u8);
        assert(str_bytes(b)[m] == b[m] as u8);
        assert(str_bytes(a)[m] == str_bytes(b)[m]);
        assert(a[m] <= '\u{7f}' && b[m] <= '\u{7f}');
    }
    assert(a =~= b);
}

/// The returned symbol and record match the parsed model.
pub open spec fn aa_matches(sym: Symbol, aa: AlternativeAllele, m: AaModel) -> bool {
    &&& match sym {
        Symbol::StructuralVariant(sv) => sv.ty == m.sv && sv.subtypes@.map_values(
            |s: String| str_bytes(s@),
        ) == m.subtypes,
    }
    &&& str_bytes(aa.description@) == m.description
    &&& entries_model(aa.other_fields) == m.others
}

/// Parses the fields of the map body from `i` on, folding them into the
/// record state.
#[verifier::rlimit(100)]
fn parse_aa_fields(
    inner: &Vec<u8>,
    i: usize,
    id: Option<StructuralVariant>,
    desc: Option<String>,
    others: indexmap::IndexMap<String, String>,
) -> (r: Result<(Symbol, AlternativeAllele), ParseError>)
    requires
        i <= inner@.len(),
        entries_ascii(others),
    ensures
        match spec_parse_aa_fields(
            inner@,
            i as int,
            sv_model(id),
            desc_model(desc),
            entries_model(others),
        ) {
            Ok(m) => r matches Ok(p) && aa_matches(p.0, p.1, m),
            Err(e) => r == Err::<(Symbol, AlternativeAllele), ParseError>(e),
        },
    decreases inner@.len() - i,
{
    if i == inner.len() {
        match id {
            Option::None => Err(ParseError::MissingId),
            Some(sv) => match desc {
                Option::None => Err(ParseError::MissingDescription),
                Some(d) => Ok(
                    (
                        Symbol::StructuralVariant(sv),
                        AlternativeAllele { description: d, other_fields: others },
                    ),
                ),
            },
        }
    } else {
        let e = find_byte_exec(inner, 0x3d, i);
        let ghost key = inner@.subrange(i as int, e as int);
        let mut j: usize = i;
        let mut good = true;
        while j < e && good
            invariant
                i <= j <= e <= inner@.len(),
                key == inner@.subrange(i as int, e as int),
                good ==> forall|m: int| 0 <= m < j - i ==> is_key_byte(#[trigger] key[m]),
                !good ==> !key_valid(key),
            decreases e - j + (if good { 1int } else { 0int }),
        {
            let c = inner[j];
            let ok = (c >= 0x41 && c <= 0x5a) || (c >= 0x61 && c <= 0x7a) || (c >= 0x30 && c
                <= 0x39) || c == 0x5f || c == 0x2e;
            proof {
                assert(key[j - i] == inner@[j as int]);
            }
            if !ok {
                good = false;
            } else {
                j += 1;
            }
        }
        if !good || e == i {
            return Err(ParseError::InvalidKey);
        }
        if e >= inner.len() {
            return Err(ParseError::InvalidValue);
        }
        let v0 = e + 1;
        let quoted = v0 < inner.len() && inner[v0] == 0x22;
        let (val, after): (Vec<u8>, usize) = if quoted {
            let q = find_byte_exec(inner, 0x22, v0 + 1);
            if q >= inner.len() {
                return Err(ParseError::InvalidValue);
            }
            proof {
                lemma_find_byte_first(inner@, 0x22, v0 + 1);
            }
            let ghost vv = inner@.subrange(v0 + 1, q as int);
            let mut m: usize = v0 + 1;
            let mut vgood = true;
            while m < q && vgood
                invariant
                    v0 + 1 <= m <= q <= inner@.len(),
                    vv == inner@.subrange(v0 + 1, q as int),
                    forall|t: int| 0 <= t < vv.len() ==> #[trigger] vv[t] != 0x22,
                    vgood ==> forall|t: int| 0 <= t < m - v0 - 1 ==> (#[trigger] vv[t]) < 128,
                    !vgood ==> !(forall|t: int|
                        0 <= t < vv.len() ==> is_quoted_byte(#[trigger] vv[t])),
                decreases q - m + (if vgood { 1int } else { 0int }),
            {
                proof {
                    assert(vv[m - v0 - 1] == inner@[m as int]);
                }
                if inner[m] >= 128 {
                    vgood = false;
                } else {
                    m += 1;
                }
            }
            if !vgood {
                return Err(ParseError::InvalidValue);
            }
            proof {
                assert(forall|t: int| 0 <= t < vv.len() ==> is_quoted_byte(#[trigger] vv[t]));
            }
            (copy_range(vec_as_slice(inner), v0 + 1, q), q + 1)
        } else {
            let c = find_byte_exec(inner, 0x2c, v0);
            proof {
                lemma_find_byte_first(inner@, 0x2c, v0 as int);
            }
            let ghost vv = inner@.subrange(v0 as int, c as int);
            let mut m: usize = v0;
            let mut vgood = true;
            while m < c && vgood
                invariant
                    v0 <= m <= c <= inner@.len(),
                    vv == inner@.subrange(v0 as int, c as int),
                    forall|t: int| 0 <= t < vv.len() ==> #[trigger] vv[t] != 0x2c,
                    vgood ==> forall|t: int| 0 <= t < m - v0 ==> is_bare_byte(#[trigger] vv[t]),
                    !vgood ==> !(forall|t: int|
                        0 <= t < vv.len() ==> is_bare_byte(#[trigger] vv[t])),
                decreases c - m + (if vgood { 1int } else { 0int }),
            {
                let b = inner[m];
                proof {
                    assert(vv[m - v0] == inner@[m as int]);
                }
                if b >= 128 || b == 0x3e || b == 0x22 || b == 0x3d || b == 0x3c {
                    vgood = false;
                } else {
                    m += 1;
                }
            }
            if !vgood {
                return Err(ParseError::InvalidValue);
            }
            (copy_range(vec_as_slice(inner), v0, c), c)
        };
        proof {
            assert(spec_parse_field_value(inner@, v0 as int) == Some((val@, after as int)));
        }
        if after < inner.len() {
            let sep = inner[after];
            if sep != 0x2c {
                return Err(ParseError::InvalidField);
            }
            if after + 1 == inner.len() {
                return Err(ParseError::InvalidKey);
            }
        }
        let next: usize = if after == inner.len() {
            after
        } else {
            after + 1
        };
        let is_id = e - i == 2 && inner[i] == 0x49 && inner[i + 1] == 0x44;
        proof {
            if is_id {
                assert(key =~= seq![0x49u8, 0x44u8]);
            } else if key.len() == 2 {
                if key == seq![0x49u8, 0x44u8] {
                    assert(inner@[i as int] == 0x49 && inner@[i + 1] == 0x44);
                }
            } else {
                if key == seq![0x49u8, 0x44u8] {
                    assert(key.len() == 2);
                }
            }
        }
        if is_id {
            match parse_symbol(&val) {
                Option::None => Err(ParseError::InvalidId),
                Some(sv) => {
                    if id.is_some() {
                        Err(ParseError::DuplicateTag)
                    } else {
                        parse_aa_fields(inner, next, Some(sv), desc, others)
                    }
                },
            }
        } else {
            let is_desc = is_description_key(inner, i, e);
            if is_desc {
                if desc.is_some() {
                    Err(ParseError::DuplicateTag)
                } else {
                    let d = ascii_to_string(val);
                    proof {
                        assert(str_bytes(d@) =~= val@);
                    }
                    parse_aa_fields(inner, next, id, Some(d), others)
                }
            } else {
                let ks = ascii_to_string(copy_range(vec_as_slice(inner), i, e));
                let vs = ascii_to_string(val);
                let ghost es0 = index_map_entries(others);
                let ghost kbytes = key;
                proof {
                    assert(str_bytes(ks@) =~= key);
                }
                proof {
                    assert(str_bytes(vs@) =~= val@);
                }
                let mut om = others;
                let dup = im_insert(&mut om, ks, vs);
                proof {
                    let es = es0;
                    let model = es.map_values(
                        |en: (Seq<char>, Seq<char>)| (str_bytes(en.0), str_bytes(en.1)),
                    );
                    if dup is Some {
                        let jj = choose|jj: int|
                            0 <= jj < es.len() && (#[trigger] es[jj]).0 == ks@;
                        assert(model[jj].0 == kbytes);
                    } else {
                        if exists|jj: int|
                            0 <= jj < model.len() && (#[trigger] model[jj]).0 == kbytes {
                            let jj = choose|jj: int|
                                0 <= jj < model.len() && (#[trigger] model[jj]).0 == kbytes;
                            assert(vstd::utf8::is_ascii_chars(es[jj].0));
                            assert(vstd::utf8::is_ascii_chars(ks@));
                            lemma_str_bytes_injective(es[jj].0, ks@);
                        }
                    }
                }
                match dup {
                    Some(_) => Err(ParseError::DuplicateTag),
                    Option::None => {
                        proof {
                            assert(entries_model(om) =~= entries_model(others).push(
                                (kbytes, val@),
                            ));
                        }
                        parse_aa_fields(inner, next, id, desc, om)
                    },
                }
            }
        }
    }
}

/// Whether the key bytes at `[i, e)` spell `Description`.
fn is_description_key(inner: &Vec<u8>, i: usize, e: usize) -> (r: bool)
    requires
        i <= e <= inner@.len(),
    ensures
        r == (inner@.subrange(i as int, e as int) == str_bytes("Description"@)),
{
    let expected: [u8; 11] = [0x44, 0x65, 0x73, 0x63, 0x72, 0x69, 0x70, 0x74, 0x69, 0x6f, 0x6e];
    proof {
        reveal_strlit("Description");
        assert(expected@ =~= str_bytes("Description"@));
    }
    if e - i != 11 {
        proof {
            if inner@.subrange(i as int, e as int) == str_bytes("Description"@) {
                assert(inner@.subrange(i as int, e as int).len() == 11);
            }
        }
        return false;
    }
    let mut m: usize = 0;
    while m < 11
        invariant
            0 <= m <= 11,
            i + 11 == e <= inner@.len(),
            expected@ == str_bytes("Description"@),
            forall|t: int| 0 <= t < m ==> inner@[i + t] == str_bytes("Description"@)[t],
        decreases 11 - m,
    {
        if inner[i + m] != expected[m] {
            proof {
                assert(inner@.subrange(i as int, e as int)[m as int] == inner@[i + m]);
            }
            return false;
        }
        m += 1;
    }
    proof {
        assert(inner@.subrange(i as int, e as int) =~= str_bytes("Description"@));
    }
    true
}

/// Parses one `<ID=...,Description="...",...>` alternative-allele map
/// value into its symbol and record.
pub fn parse_alternative_allele(src: &[u8]) -> (r: Result<
    (Symbol, AlternativeAllele),
    ParseError,
>)
    ensures
        match spec_parse_aa(src@) {
            Ok(m) => r matches Ok(p) && aa_matches(p.0, p.1, m),
            Err(e) => r == Err::<(Symbol, AlternativeAllele), ParseError>(e),
        },
{
    let b = copy_range(src, 0, src.len());
    proof {
        assert(b@ =~= src@);
    }
    if b.len() < 2 {
        return Err(ParseError::InvalidMap);
    }
    if b[0] != 0x3c {
        return Err(ParseError::InvalidMap);
    }
    if b[b.len() - 1] != 0x3e {
        return Err(ParseError::InvalidMap);
    }
    let inner = copy_range(src, 1, b.len() - 1);
    proof {
        assert(inner@ =~= src@.subrange(1, src@.len() - 1));
    }
    let om = im_new();
    proof {
        assert(entries_model(om) =~= Seq::<(Seq<u8>, Seq<u8>)>::empty());
    }
    parse_aa_fields(&inner, 0, Option::None, Option::None, om)
}

} // verus!
