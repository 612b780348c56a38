//! Encoding one variant site in the binary variant-call form: the fixed
//! fields, then the typed id, allele, filter and info values.

use vstd::prelude::*;
use vstd::string::StringSliceAdditionalSpecFns;

use crate::alt_allele::index_map_entries;
use crate::endian::{u16_to_le, u32_to_le};
use crate::error::Error;
use crate::info::str_bytes;

verus! {

/// The bit pattern of the reserved missing floating-point value.
pub const MISSING_FLOAT_BITS: u32 = 0x7F80_0001;

/// The reserved missing 8-bit integer.
pub const MISSING_INT8: u8 = 0x80;

/// An ordered map from strings to their indices, as the textual header
/// declares them.
pub struct StringMap {
    inner: indexmap::IndexMap<String, String>,
}

/// Relies on IndexMap::get_index_of: the position of a key in insertion
/// order, present exactly when the key is present.
#[verifier::external_body]
fn im_get_index_of(m: &indexmap::IndexMap<String, String>, key: &String) -> (r: Option<usize>)
    ensures
        (r is Some) == (exists|i: int|
            0 <= i < index_map_entries(*m).len() && (#[trigger] index_map_entries(*m)[i]).0
                == key@),
        r matches Some(i) ==> i < index_map_entries(*m).len() && index_map_entries(*m)[i as int].0
            == key@,
{
    m.get_index_of(key)
}

impl StringMap {
    /// The map's entries, as key texts in insertion order.
    pub closed spec fn entries(&self) -> Seq<Seq<char>> {
        index_map_entries(self.inner).map_values(|e: (Seq<char>, Seq<char>)| e.0)
    }

    /// An empty map.
    pub fn new() -> (r: StringMap)
        ensures
            r.entries() == Seq::<Seq<char>>::empty(),
    {
        let r = StringMap { inner: crate::alt_allele::im_new() };
        proof {
            assert(r.entries() =~= Seq::<Seq<char>>::empty());
        }
        r
    }

    /// Whether the map holds `k`.
    pub closed spec fn has(&self, k: Seq<char>) -> bool {
        exists|i: int|
            0 <= i < index_map_entries(self.inner).len() && (#[trigger] index_map_entries(
                self.inner,
            )[i]).0 == k
    }

    /// Whether the map holds `k` at an index that fits a signed byte.
    pub closed spec fn has_fitting(&self, k: Seq<char>) -> bool {
        exists|i: int|
            0 <= i <= 0x7f && i < self.entries().len() && #[trigger] self.entries()[i] == k
    }

    /// A fitting index witnesses `has_fitting`.
    pub proof fn lemma_has_fitting(&self, k: Seq<char>, i: int)
        requires
            0 <= i <= 0x7f,
            i < self.entries().len(),
            self.entries()[i] == k,
        ensures
            self.has_fitting(k),
    {
    }

    /// In a well-formed map, a match at an unfitting index rules
    /// `has_fitting` out, and a missing key does too.
    pub proof fn lemma_not_fitting(&self, k: Seq<char>)
        requires
            self.wf(),
            forall|i: int|
                0 <= i < self.entries().len() && #[trigger] self.entries()[i] == k ==> i > 0x7f,
        ensures
            !self.has_fitting(k),
    {
        if self.has_fitting(k) {
            let i = choose|i: int|
                0 <= i <= 0x7f && i < self.entries().len() && #[trigger] self.entries()[i] == k;
        }
    }

    /// Every string appears once.
    pub open spec fn wf(&self) -> bool {
        forall|i: int, j: int|
            0 <= i < j < self.entries().len() ==> #[trigger] self.entries()[i]
                != #[trigger] self.entries()[j]
    }

    /// Appends a string; an already-present string keeps its place.
    pub fn insert(&mut self, s: String)
        requires
            old(self).wf(),
        ensures
            final(self).wf(),
            old(self).has(s@) ==> final(self).entries() == old(self).entries(),
            !old(self).has(s@) ==> final(self).entries() == old(self).entries().push(s@),
    {
        let ghost es0 = index_map_entries(self.inner);
        let r = crate::alt_allele::im_insert(&mut self.inner, s, String::new());
        proof {
            if r is None {
                assert(self.entries() =~= old(self).entries().push(s@));
                assert forall|i: int, j: int|
                    0 <= i < j < self.entries().len() implies #[trigger] self.entries()[i]
                    != #[trigger] self.entries()[j] by {
                    if j < old(self).entries().len() {
                    } else {
                        assert(self.entries()[i] == old(self).entries()[i]);
                    }
                }
            } else {
                let i = choose|i: int|
                    0 <= i < es0.len() && (#[trigger] es0[i]).0 == s@ && es0[i].1
                        == (r->0)@ && index_map_entries(self.inner) == es0.update(i, (s@, ""@));
                assert(self.entries() =~= old(self).entries());
            }
        }
    }

    /// The position of a string, if it is present.
    pub fn get_index_of(&self, key: &String) -> (r: Option<usize>)
        ensures
            (r is Some) == (exists|i: int|
                0 <= i < self.entries().len() && #[trigger] self.entries()[i] == key@),
            r matches Some(i) ==> i < self.entries().len() && self.entries()[i as int] == key@,
    {
        let r = im_get_index_of(&self.inner, key);
        proof {
            let es = index_map_entries(self.inner);
            if r is Some {
                let i = r->0;
                assert(self.entries()[i as int] == es[i as int].0);
            }
            if exists|i: int|
                0 <= i < self.entries().len() && #[trigger] self.entries()[i] == key@ {
                let i = choose|i: int|
                    0 <= i < self.entries().len() && #[trigger] self.entries()[i] == key@;
                assert(es[i].0 == key@);
            }
        }
        r
    }
}

/// Which filters a record carries.
pub enum Filters {
    /// No filtering was applied.
    Missing,
    /// All filters passed.
    Pass,
    /// The named filters failed.
    Fail(Vec<String>),
}

/// One resolved info field value.
pub enum SiteValue {
    /// An integer.
    Integer(i32),
    /// A floating-point value, carried by its bit pattern.
    FloatBits(u32),
    /// A presence flag.
    Flag,
    /// Text.
    Text(String),
}

/// One info field.
pub struct SiteInfoField {
    /// The field's key.
    pub key: String,
    /// The field's value.
    pub value: SiteValue,
}

/// One variant site, with placement and fields as plain values.
pub struct SiteRecord {
    /// The chromosome's name.
    pub chromosome: String,
    /// The one-based position.
    pub position: i32,
    /// The quality score's bit pattern, if one was given.
    pub quality_bits: Option<u32>,
    /// The record's ids.
    pub ids: Vec<String>,
    /// The reference bases.
    pub reference_bases: String,
    /// The alternate alleles.
    pub alternate_bases: Vec<String>,
    /// The record's filters.
    pub filters: Filters,
    /// The record's info fields.
    pub info: Vec<SiteInfoField>,
}

/// The four little-endian bytes of a signed 32-bit field.
pub open spec fn i32_le(v: i32) -> Seq<u8> {
    u32_to_le(v as u32)
}

/// The typed descriptor of a value: its length in the high four bits,
/// its type code in the low four.
pub open spec fn descriptor(len: int, ty: int) -> Seq<u8>
    recommends
        0 <= len <= 14,
        0 <= ty <= 15,
{
    seq![(len * 16 + ty) as u8]
}

/// The typed encoding of a present string value.
pub open spec fn string_value(s: Seq<u8>) -> Seq<u8> {
    descriptor(s.len() as int, 7) + s
}

/// The typed encoding of a missing value.
pub open spec fn missing_value() -> Seq<u8> {
    seq![0u8]
}

/// The typed encoding of an array of 8-bit integers.
pub open spec fn int8_array_value(v: Seq<u8>) -> Seq<u8> {
    descriptor(v.len() as int, 1) + v
}

/// The typed encoding of one info value.
pub open spec fn site_value_bytes(v: SiteValue) -> Seq<u8> {
    match v {
        SiteValue::Integer(n) => seq![0x13u8] + i32_le(n),
        SiteValue::FloatBits(b) => seq![0x15u8] + u32_to_le(b),
        SiteValue::Flag => missing_value(),
        SiteValue::Text(s) => string_value(str_bytes(s@)),
    }
}

/// The byte texts of a string list.
pub open spec fn texts(xs: Seq<String>) -> Seq<Seq<u8>> {
    xs.map_values(|s: String| str_bytes(s@))
}

/// The elements of `xs` from `i` on, joined by semicolons.
pub open spec fn join_semi(xs: Seq<Seq<u8>>, i: int) -> Seq<u8>
    decreases xs.len() - i,
{
    if i < 0 || i >= xs.len() {
        Seq::empty()
    } else if i == xs.len() - 1 {
        xs[i]
    } else {
        xs[i] + seq![0x3bu8] + join_semi(xs, i + 1)
    }
}

/// The typed string values of the alleles from `i` on, one value each.
pub open spec fn alts_bytes(xs: Seq<Seq<u8>>, i: int) -> Seq<u8>
    decreases xs.len() - i,
{
    if i < 0 || i >= xs.len() {
        Seq::empty()
    } else {
        string_value(xs[i]) + alts_bytes(xs, i + 1)
    }
}

/// A string fits one typed string value: seven-bit and within the
/// four-bit length field.
pub open spec fn fits_string_value(s: String) -> bool {
    vstd::utf8::is_ascii_chars(s@) && s@.len() <= 14
}

/// `out` is the encoding of the chromosome: the four-byte index of its
/// name among the contigs.
pub open spec fn chrom_encoding(contigs: &StringMap, name: Seq<char>, out: Seq<u8>) -> bool {
    exists|ci: int|
        0 <= ci <= 0x7fff_ffff && ci < contigs.entries().len() && #[trigger] contigs.entries()[ci]
            == name && out == i32_le(ci as i32)
}

/// `out` is the encoding of the filters: nothing gives a missing value,
/// a pass gives the one-element index array `[0]`, and failed filters
/// give the array of their indices in the string map.
pub open spec fn filter_encoding(sm: &StringMap, filters: &Filters, out: Seq<u8>) -> bool {
    match filters {
        Filters::Missing => out == missing_value(),
        Filters::Pass => out == int8_array_value(seq![0u8]),
        Filters::Fail(ids) => {
            if ids@.len() == 0 {
                out == missing_value()
            } else {
                exists|idxs: Seq<u8>|
                    #![auto]
                    idxs.len() == ids@.len() && (forall|k: int|
                        0 <= k < idxs.len() ==> idxs[k] <= 0x7f && idxs[k]
                            < sm.entries().len() && sm.entries()[idxs[k] as int]
                            == ids@[k]@) && out == int8_array_value(idxs)
            }
        },
    }
}

/// `out` is the encoding of the info fields: for each, a one-byte typed
/// integer holding the key's index in the string map, then the typed
/// value.
pub open spec fn info_encoding(sm: &StringMap, fields: Seq<SiteInfoField>, out: Seq<u8>) -> bool {
    exists|kidxs: Seq<u8>|
        #![auto]
        kidxs.len() == fields.len() && (forall|k: int|
            0 <= k < kidxs.len() ==> kidxs[k] <= 0x7f && kidxs[k] < sm.entries().len()
                && sm.entries()[kidxs[k] as int] == fields[k].key@) && out == info_bytes(
            fields,
            kidxs,
            0,
        )
}

/// The info fields from `i` on, each as its key index value then its
/// typed value.
pub open spec fn info_bytes(fields: Seq<SiteInfoField>, kidxs: Seq<u8>, i: int) -> Seq<u8>
    decreases fields.len() - i,
{
    if i < 0 || i >= fields.len() || kidxs.len() != fields.len() {
        Seq::empty()
    } else {
        seq![0x11u8, kidxs[i]] + site_value_bytes(fields[i].value) + info_bytes(
            fields,
            kidxs,
            i + 1,
        )
    }
}

/// The chromosome resolves to a contig index that fits its field.
pub open spec fn chrom_ok(contigs: &StringMap, name: Seq<char>) -> bool {
    exists|ci: int|
        0 <= ci <= 0x7fff_ffff && ci < contigs.entries().len() && #[trigger] contigs.entries()[ci]
            == name
}

/// The ids fit one typed string value once joined.
pub open spec fn ids_ok(ids: Seq<String>) -> bool {
    ids.len() == 0 || ((forall|j: int|
        0 <= j < ids.len() ==> vstd::utf8::is_ascii_chars((#[trigger] ids[j])@)) && join_semi(
        texts(ids),
        0,
    ).len() <= 14)
}

/// Failed-filter ids resolve to string-map indices that fit one 8-bit
/// array.
pub open spec fn fail_ids_ok(sm: &StringMap, ids: Seq<String>) -> bool {
    ids.len() == 0 || (ids.len() <= 14 && (forall|k: int|
        #![trigger ids[k]]
        0 <= k < ids.len() ==> sm.has_fitting(ids[k]@)))
}

/// The filters resolve to string-map indices that fit one 8-bit array.
pub open spec fn filters_ok(sm: &StringMap, filters: &Filters) -> bool {
    match filters {
        Filters::Missing => true,
        Filters::Pass => true,
        Filters::Fail(ids) => fail_ids_ok(sm, ids@),
    }
}

/// Every info key resolves to a fitting index and every text value fits
/// one typed string value.
pub open spec fn info_ok(sm: &StringMap, fields: Seq<SiteInfoField>) -> bool {
    &&& (forall|k: int|
        #![trigger fields[k]]
        0 <= k < fields.len() ==> sm.has_fitting(fields[k].key@))
    &&& (forall|k: int|
        #![trigger fields[k]]
        0 <= k < fields.len() ==> match fields[k].value {
            SiteValue::Text(t) => fits_string_value(t),
            _ => true,
        })
}

/// The old bytes stay in place: appending is the only change.
pub open spec fn extends(old_bytes: Seq<u8>, new_bytes: Seq<u8>) -> bool {
    old_bytes.len() <= new_bytes.len() && new_bytes.subrange(0, old_bytes.len() as int)
        == old_bytes
}

/// Writes the chromosome's contig index.
pub fn write_chrom(dst: &mut Vec<u8>, contigs: &StringMap, chromosome: &String) -> (r: Result<
    (),
    Error,
>)
    requires
        contigs.wf(),
    ensures
        r matches Ok(u) ==> exists|cb: Seq<u8>|
            #![auto]
            chrom_encoding(contigs, chromosome@, cb) && final(dst)@ == old(dst)@ + cb,
        (r is Err) == !chrom_ok(contigs, chromosome@),
        r matches Err(e) ==> e == Error::InvalidInput && final(dst)@ == old(dst)@,
{
    match contigs.get_index_of(chromosome) {
        Some(i) => {
            if i > 0x7fff_ffff {
                proof {
                    if chrom_ok(contigs, chromosome@) {
                        let ci = choose|ci: int|
                            0 <= ci <= 0x7fff_ffff && ci < contigs.entries().len()
                                && #[trigger] contigs.entries()[ci] == chromosome@;
                        assert(ci == i);
                    }
                }
                return Err(Error::InvalidInput);
            }
            let v = i as i32;
            crate::endian::push_u32_le(dst, v as u32);
            proof {
                assert(chrom_encoding(contigs, chromosome@, i32_le(v)));
            }
            Ok(())
        },
        Option::None => Err(Error::InvalidInput),
    }
}

/// Writes the zero-based position field.
pub fn write_pos(dst: &mut Vec<u8>, position: i32) -> (r: Result<(), Error>)
    requires
        position >= 0,
    ensures
        r matches Ok(u) ==> final(dst)@ == old(dst)@ + i32_le((position - 1) as i32),
        r is Ok,
{
    let p = position - 1;
    crate::endian::push_u32_le(dst, p as u32);
    Ok(())
}

/// Writes the quality field: the given bit pattern, or the reserved
/// missing value.
pub fn write_qual(dst: &mut Vec<u8>, quality_bits: Option<u32>)
    ensures
        final(dst)@ == old(dst)@ + u32_to_le(
            match quality_bits {
                Some(b) => b,
                Option::None => MISSING_FLOAT_BITS,
            },
        ),
{
    match quality_bits {
        Some(b) => crate::endian::push_u32_le(dst, b),
        Option::None => crate::endian::push_u32_le(dst, MISSING_FLOAT_BITS),
    }
}

/// Writes one typed string value.
fn push_string_value(dst: &mut Vec<u8>, s: &String) -> (r: Result<(), Error>)
    ensures
        r matches Ok(u) ==> fits_string_value(*s) && final(dst)@ == old(dst)@ + string_value(
            str_bytes(s@),
        ),
        r matches Err(e) ==> e == Error::InvalidInput && final(dst)@ == old(dst)@
            && !fits_string_value(*s),
{
    let st = s.as_str();
    if !st.is_ascii() {
        return Err(Error::InvalidInput);
    }
    proof {
        vstd::utf8::is_ascii_chars_encode_utf8(s@);
    }
    let n = st.as_bytes().len();
    if n > 14 {
        return Err(Error::InvalidInput);
    }
    proof {
        assert(st@ == s@);
        assert(n == s@.len());
        assert(str_bytes(s@).len() == s@.len());
    }
    dst.push((n * 16 + 7) as u8);
    crate::info::push_str_bytes(dst, s);
    proof {
        assert(descriptor(str_bytes(s@).len() as int, 7) =~= seq![(n * 16 + 7) as u8]);
        assert(dst@ =~= old(dst)@ + string_value(str_bytes(s@)));
    }
    Ok(())
}

/// Writes the id value: the ids joined by semicolons, or a missing
/// string when there are none.
pub fn write_id(dst: &mut Vec<u8>, ids: &Vec<String>) -> (r: Result<(), Error>)
    ensures
        r matches Ok(u) ==> final(dst)@ == old(dst)@ + (if ids@.len() == 0 {
            seq![0x07u8]
        } else {
            string_value(join_semi(texts(ids@), 0))
        }),
        (r is Err) == !ids_ok(ids@),
        r matches Err(e) ==> e == Error::InvalidInput && final(dst)@ == old(dst)@,
{
    if ids.len() == 0 {
        dst.push(0x07);
        proof {
            assert(dst@ =~= old(dst)@ + seq![0x07u8]);
        }
        return Ok(());
    }
    let mut joined: Vec<u8> = Vec::new();
    let mut i: usize = 0;
    while i < ids.len()
        invariant
            0 <= i <= ids@.len(),
            ids@.len() > 0,
            i < ids@.len() ==> joined@ + join_semi(texts(ids@), i as int) == join_semi(
                texts(ids@),
                0,
            ),
            i == ids@.len() ==> joined@ == join_semi(texts(ids@), 0),
            forall|t: int| 0 <= t < joined@.len() ==> (#[trigger] joined@[t]) < 128,
            forall|j: int| 0 <= j < i ==> vstd::utf8::is_ascii_chars((#[trigger] ids@[j])@),
            dst@ == old(dst)@,
        decreases ids@.len() - i,
    {
        let s = &ids[i];
        let st = s.as_str();
        if !st.is_ascii() {
            return Err(Error::InvalidInput);
        }
        proof {
            vstd::utf8::is_ascii_chars_encode_utf8(s@);
        }
        let ghost j0 = joined@;
        crate::info::push_str_bytes(&mut joined, s);
        if i < ids.len() - 1 {
            joined.push(0x3b);
            proof {
                assert(joined@ =~= j0 + texts(ids@)[i as int] + seq![0x3bu8]);
                assert(j0 + texts(ids@)[i as int] + seq![0x3bu8] + join_semi(
                    texts(ids@),
                    i + 1,
                ) =~= j0 + (texts(ids@)[i as int] + seq![0x3bu8] + join_semi(
                    texts(ids@),
                    i + 1,
                )));
            }
        } else {
            proof {
                assert(joined@ =~= j0 + texts(ids@)[i as int]);
            }
        }
        i += 1;
    }
    if joined.len() > 14 {
        return Err(Error::InvalidInput);
    }
    dst.push((joined.len() * 16 + 7) as u8);
    let ghost d0 = dst@;
    let mut k: usize = 0;
    while k < joined.len()
        invariant
            0 <= k <= joined@.len(),
            dst@ == d0 + joined@.subrange(0, k as int),
        decreases joined@.len() - k,
    {
        dst.push(joined[k]);
        proof {
            assert(dst@ =~= d0 + joined@.subrange(0, k + 1));
        }
        k += 1;
    }
    proof {
        assert(joined@.subrange(0, joined@.len() as int) =~= joined@);
        assert(dst@ =~= old(dst)@ + string_value(join_semi(texts(ids@), 0)));
    }
    Ok(())
}

/// Writes the reference bases, then one value per alternate allele (or
/// a missing string when there are none).
pub fn write_ref_alt(dst: &mut Vec<u8>, reference_bases: &String, alternate_bases: &Vec<String>)
    -> (r: Result<(), Error>)
    ensures
        r matches Ok(u) ==> final(dst)@ == old(dst)@ + string_value(str_bytes(reference_bases@))
            + (if alternate_bases@.len() == 0 {
            seq![0x07u8]
        } else {
            alts_bytes(texts(alternate_bases@), 0)
        }),
        (r is Err) == (!fits_string_value(*reference_bases) || exists|j: int|
            0 <= j < alternate_bases@.len() && !fits_string_value(#[trigger] alternate_bases@[j])),
        r matches Err(e) ==> e == Error::InvalidInput && extends(old(dst)@, final(dst)@),
{
    match push_string_value(dst, reference_bases) {
        Ok(_) => {},
        Err(e) => {
            proof {
                assert(dst@.subrange(0, old(dst)@.len() as int) =~= old(dst)@);
            }
            return Err(e);
        },
    }
    if alternate_bases.len() == 0 {
        dst.push(0x07);
        proof {
            assert(dst@ =~= old(dst)@ + string_value(str_bytes(reference_bases@)) + seq![
                0x07u8,
            ]);
        }
        return Ok(());
    }
    let ghost base = dst@;
    proof {
        assert(base.subrange(0, base.len() as int) =~= base);
        assert(base.subrange(base.len() as int, base.len() as int) =~= Seq::<u8>::empty());
        assert(Seq::<u8>::empty() + alts_bytes(texts(alternate_bases@), 0) =~= alts_bytes(
            texts(alternate_bases@),
            0,
        ));
    }
    let mut i: usize = 0;
    while i < alternate_bases.len()
        invariant
            0 <= i <= alternate_bases@.len(),
            dst@.len() >= base.len(),
            dst@.subrange(0, base.len() as int) == base,
            dst@.subrange(base.len() as int, dst@.len() as int) + alts_bytes(
                texts(alternate_bases@),
                i as int,
            ) == alts_bytes(texts(alternate_bases@), 0),
            forall|j: int|
                0 <= j < i ==> fits_string_value(#[trigger] alternate_bases@[j]),
            base == old(dst)@ + string_value(str_bytes(reference_bases@)),
            fits_string_value(*reference_bases),
        decreases alternate_bases@.len() - i,
    {
        let ghost before = dst@;
        match push_string_value(dst, &alternate_bases[i]) {
            Ok(_) => {},
            Err(e) => {
                proof {
                    assert(dst@.subrange(0, old(dst)@.len() as int) =~= old(dst)@);
                }
                return Err(e);
            },
        }
        proof {
            assert(dst@.subrange(0, base.len() as int) =~= base);
            assert(dst@ =~= base + dst@.subrange(base.len() as int, dst@.len() as int));
            assert(dst@.subrange(base.len() as int, dst@.len() as int) =~= before.subrange(
                base.len() as int,
                before.len() as int,
            ) + string_value(str_bytes(alternate_bases@[i as int]@)));
            assert(dst@.subrange(base.len() as int, dst@.len() as int) + alts_bytes(
                texts(alternate_bases@),
                i + 1,
            ) =~= alts_bytes(texts(alternate_bases@), 0));
        }
        i += 1;
    }
    proof {
        assert(dst@.subrange(base.len() as int, dst@.len() as int) + Seq::<u8>::empty()
            =~= dst@.subrange(base.len() as int, dst@.len() as int));
        assert(dst@ =~= base + dst@.subrange(base.len() as int, dst@.len() as int));
        assert(dst@ =~= old(dst)@ + string_value(str_bytes(reference_bases@)) + alts_bytes(
            texts(alternate_bases@),
            0,
        ));
    }
    Ok(())
}

/// Writes the filter value.
pub fn write_filter(dst: &mut Vec<u8>, string_map: &StringMap, filters: &Filters) -> (r: Result<
    (),
    Error,
>)
    requires
        string_map.wf(),
    ensures
        r matches Ok(u) ==> exists|fb: Seq<u8>|
            #![auto]
            filter_encoding(string_map, filters, fb) && final(dst)@ == old(dst)@ + fb,
        (r is Err) == !filters_ok(string_map, filters),
        r matches Err(e) ==> e == Error::InvalidInput && final(dst)@ == old(dst)@,
{
    match filters {
        Filters::Missing => {
            dst.push(0);
            proof {
                assert(dst@ =~= old(dst)@ + missing_value());
                assert(filter_encoding(string_map, filters, missing_value()));
                assert(filters_ok(string_map, filters));
            }
            Ok(())
        },
        Filters::Pass => {
            dst.push(0x11);
            dst.push(0);
            proof {
                assert(int8_array_value(seq![0u8]) =~= seq![0x11u8, 0u8]);
                assert(dst@ =~= old(dst)@ + int8_array_value(seq![0u8]));
                assert(filter_encoding(string_map, filters, int8_array_value(seq![0u8])));
                assert(filters_ok(string_map, filters));
            }
            Ok(())
        },
        Filters::Fail(ids) => {
            if ids.len() == 0 {
                dst.push(0);
                proof {
                    assert(dst@ =~= old(dst)@ + missing_value());
                    assert(filter_encoding(string_map, filters, missing_value()));
                    assert(filters_ok(string_map, filters));
                }
                return Ok(());
            }
            if ids.len() > 14 {
                proof {
                    assert(!fail_ids_ok(string_map, ids@));
                }
                return Err(Error::InvalidInput);
            }
            let mut idxs: Vec<u8> = Vec::new();
            let mut i: usize = 0;
            while i < ids.len()
                invariant
                    string_map.wf(),
                    filters is Fail,
                    filters->Fail_0@ == ids@,
                    ids@.len() <= 14,
                    0 < ids@.len(),
                    dst@ == old(dst)@,
                    0 <= i <= ids@.len(),
                    idxs@.len() == i,
                    forall|k: int|
                        0 <= k < i ==> (#[trigger] idxs@[k]) <= 0x7f && idxs@[k]
                            < string_map.entries().len() && string_map.entries()[idxs@[k] as int]
                            == ids@[k]@,
                decreases ids@.len() - i,
            {
                match string_map.get_index_of(&ids[i]) {
                    Some(ix) => {
                        if ix > 0x7f {
                            proof {
                                assert forall|ii: int|
                                    0 <= ii < string_map.entries().len()
                                        && #[trigger] string_map.entries()[ii] == ids@[
                                    i as int]@ implies ii > 0x7f by {
                                    assert(ii == ix);
                                }
                                string_map.lemma_not_fitting(ids@[i as int]@);
                                assert(!fail_ids_ok(string_map, ids@));
                            }
                            return Err(Error::InvalidInput);
                        }
                        idxs.push(ix as u8);
                    },
                    Option::None => {
                        proof {
                            assert forall|ii: int|
                                0 <= ii < string_map.entries().len()
                                    && #[trigger] string_map.entries()[ii] == ids@[
                                i as int]@ implies ii > 0x7f by {}
                            string_map.lemma_not_fitting(ids@[i as int]@);
                            assert(!fail_ids_ok(string_map, ids@));
                        }
                        return Err(Error::InvalidInput);
                    },
                }
                i += 1;
            }
            dst.push((idxs.len() * 16 + 1) as u8);
            let ghost d0 = dst@;
            let mut k: usize = 0;
            while k < idxs.len()
                invariant
                    0 <= k <= idxs@.len(),
                    idxs@.len() <= 14,
                    ids@.len() <= 14,
                    dst@ == d0 + idxs@.subrange(0, k as int),
                decreases idxs@.len() - k,
            {
                dst.push(idxs[k]);
                proof {
                    assert(dst@ =~= d0 + idxs@.subrange(0, k + 1));
                }
                k += 1;
            }
            proof {
                assert(idxs@.subrange(0, idxs@.len() as int) =~= idxs@);
                assert(dst@ =~= old(dst)@ + int8_array_value(idxs@));
                assert(filter_encoding(string_map, filters, int8_array_value(idxs@)));
                assert forall|k: int| #![trigger ids@[k]] 0 <= k < ids@.len() implies
                    string_map.has_fitting(ids@[k]@) by {
                    string_map.lemma_has_fitting(ids@[k]@, idxs@[k] as int);
                }
                assert(fail_ids_ok(string_map, ids@));
                assert(filters_ok(string_map, filters));
            }
            Ok(())
        },
    }
}

/// Writes the info fields: each key's index, then its typed value.
pub fn write_info(dst: &mut Vec<u8>, string_map: &StringMap, fields: &Vec<SiteInfoField>) -> (r:
    Result<(), Error>)
    requires
        string_map.wf(),
    ensures
        r matches Ok(u) ==> exists|ib: Seq<u8>|
            #![auto]
            info_encoding(string_map, fields@, ib) && final(dst)@ == old(dst)@ + ib,
        (r is Err) == !info_ok(string_map, fields@),
        r matches Err(e) ==> e == Error::InvalidInput && extends(old(dst)@, final(dst)@),
{
    let mut kidxs: Vec<u8> = Vec::new();
    let mut i: usize = 0;
    while i < fields.len()
        invariant
            string_map.wf(),
            dst@ == old(dst)@,
            0 <= i <= fields@.len(),
            kidxs@.len() == i,
            forall|k: int|
                0 <= k < i ==> (#[trigger] kidxs@[k]) <= 0x7f && kidxs@[k]
                    < string_map.entries().len() && string_map.entries()[kidxs@[k] as int]
                    == fields@[k].key@,
        decreases fields@.len() - i,
    {
        match string_map.get_index_of(&fields[i].key) {
            Some(ix) => {
                if ix > 0x7f {
                    proof {
                        assert forall|ii: int|
                            0 <= ii < string_map.entries().len()
                                && #[trigger] string_map.entries()[ii] == fields@[
                            i as int].key@ implies ii > 0x7f by {
                            assert(ii == ix);
                        }
                        string_map.lemma_not_fitting(fields@[i as int].key@);
                        assert(dst@.subrange(0, old(dst)@.len() as int) =~= old(dst)@);
                    }
                    return Err(Error::InvalidInput);
                }
                kidxs.push(ix as u8);
            },
            Option::None => {
                proof {
                    assert forall|ii: int|
                        0 <= ii < string_map.entries().len()
                            && #[trigger] string_map.entries()[ii] == fields@[
                        i as int].key@ implies ii > 0x7f by {}
                    string_map.lemma_not_fitting(fields@[i as int].key@);
                    assert(dst@.subrange(0, old(dst)@.len() as int) =~= old(dst)@);
                }
                return Err(Error::InvalidInput);
            },
        }
        i += 1;
    }
    proof {
        assert forall|k: int| #![trigger fields@[k]] 0 <= k < fields@.len() implies
            string_map.has_fitting(fields@[k].key@) by {
            string_map.lemma_has_fitting(fields@[k].key@, kidxs@[k] as int);
        }
    }
    let ghost base = dst@;
    let mut j: usize = 0;
    while j < fields.len()
        invariant
            0 <= j <= fields@.len(),
            kidxs@.len() == fields@.len(),
            forall|k: int|
                0 <= k < fields@.len() ==> (#[trigger] kidxs@[k]) <= 0x7f && kidxs@[k]
                    < string_map.entries().len() && string_map.entries()[kidxs@[k] as int]
                    == fields@[k].key@,
            dst@.len() >= base.len(),
            dst@.subrange(0, base.len() as int) == base,
            dst@.subrange(base.len() as int, dst@.len() as int) + info_bytes(
                fields@,
                kidxs@,
                j as int,
            ) == info_bytes(fields@, kidxs@, 0),
            base == old(dst)@,
            forall|k: int| #![trigger fields@[k]] 0 <= k < fields@.len() ==>
                string_map.has_fitting(fields@[k].key@),
            forall|k: int| #![trigger fields@[k]] 0 <= k < j ==> match fields@[k].value {
                SiteValue::Text(t) => fits_string_value(t),
                _ => true,
            },
        decreases fields@.len() - j,
    {
        let ghost before = dst@;
        dst.push(0x11);
        dst.push(kidxs[j]);
        match &fields[j].value {
            SiteValue::Integer(n) => {
                dst.push(0x13);
                crate::endian::push_u32_le(dst, *n as u32);
            },
            SiteValue::FloatBits(b) => {
                dst.push(0x15);
                crate::endian::push_u32_le(dst, *b);
            },
            SiteValue::Flag => {
                dst.push(0);
            },
            SiteValue::Text(s) => {
                match push_string_value(dst, s) {
                    Ok(_) => {},
                    Err(e) => {
                        proof {
                            assert(dst@.subrange(0, old(dst)@.len() as int) =~= old(dst)@);
                        }
                        return Err(e);
                    },
                }
            },
        }
        proof {
            assert(dst@.subrange(base.len() as int, dst@.len() as int) =~= before.subrange(
                base.len() as int,
                before.len() as int,
            ) + seq![0x11u8, kidxs@[j as int]] + site_value_bytes(fields@[j as int].value));
            assert(dst@.subrange(0, base.len() as int) =~= base);
            assert(dst@.subrange(base.len() as int, dst@.len() as int) + info_bytes(
                fields@,
                kidxs@,
                j + 1,
            ) =~= info_bytes(fields@, kidxs@, 0));
        }
        j += 1;
    }
    proof {
        assert(base.subrange(0, base.len() as int) =~= base);
        assert(dst@.subrange(base.len() as int, dst@.len() as int) + Seq::<u8>::empty()
            =~= dst@.subrange(base.len() as int, dst@.len() as int));
        assert(dst@ =~= base + dst@.subrange(base.len() as int, dst@.len() as int));
        assert(info_encoding(string_map, fields@, dst@.subrange(
            base.len() as int,
            dst@.len() as int,
        )));
    }
    Ok(())
}

/// Every lookup a site encoding needs resolves and every count and
/// string fits its field: exactly when `write_site` succeeds.
pub open spec fn site_ok(
    contigs: &StringMap,
    sm: &StringMap,
    sample_count: u32,
    record: &SiteRecord,
) -> bool {
    &&& chrom_ok(contigs, record.chromosome@)
    &&& record.info@.len() <= 0xffff
    &&& (record.alternate_bases@.len() == 0 || record.alternate_bases@.len() <= 0xfffe)
    &&& sample_count < 0x100_0000
    &&& ids_ok(record.ids@)
    &&& fits_string_value(record.reference_bases)
    &&& (forall|j: int|
        0 <= j < record.alternate_bases@.len() ==> fits_string_value(
            #[trigger] record.alternate_bases@[j],
        ))
    &&& filters_ok(sm, &record.filters)
    &&& info_ok(sm, record.info@)
}

/// Writes one variant site: the fixed fields, then the typed id,
/// allele, filter and info values.
///
/// Fails with `InvalidInput` when a name is missing from its string
/// map, an index or count does not fit its field, or a string does not
/// fit one typed value.
pub fn write_site(
    dst: &mut Vec<u8>,
    contigs: &StringMap,
    string_map: &StringMap,
    sample_count: u32,
    format_count: u8,
    record: &SiteRecord,
) -> (r: Result<(), Error>)
    requires
        contigs.wf(),
        string_map.wf(),
        record.position >= 0,
    ensures
        r matches Ok(u) ==> exists|cb: Seq<u8>, fb: Seq<u8>, ib: Seq<u8>|
            #![auto]
            {
                &&& chrom_encoding(contigs, record.chromosome@, cb)
                &&& filter_encoding(string_map, &record.filters, fb)
                &&& info_encoding(string_map, record.info@, ib)
                &&& sample_count < 0x100_0000
                &&& record.info@.len() <= 0xffff
                &&& final(dst)@ == old(dst)@ + cb + i32_le((record.position - 1) as i32)
                    + i32_le(1) + u32_to_le(
                    match record.quality_bits {
                        Some(b) => b,
                        Option::None => MISSING_FLOAT_BITS,
                    },
                ) + u16_to_le(record.info@.len() as u16) + u16_to_le(
                    (1 + (if record.alternate_bases@.len() == 0 {
                        1int
                    } else {
                        record.alternate_bases@.len() as int
                    })) as u16,
                ) + u32_to_le((format_count * 0x100_0000 + sample_count) as u32) + (if record.ids@.len()
                    == 0 {
                    seq![0x07u8]
                } else {
                    string_value(join_semi(texts(record.ids@), 0))
                }) + string_value(str_bytes(record.reference_bases@)) + (if record.alternate_bases@.len()
                    == 0 {
                    seq![0x07u8]
                } else {
                    alts_bytes(texts(record.alternate_bases@), 0)
                }) + fb + ib
            },
        (r is Ok) == site_ok(contigs, string_map, sample_count, record),
        r matches Err(e) ==> e == Error::InvalidInput && extends(old(dst)@, final(dst)@),
{
    match write_chrom(dst, contigs, &record.chromosome) {
        Ok(_) => {},
        Err(e) => {
            proof {
                assert(dst@.subrange(0, old(dst)@.len() as int) =~= old(dst)@);
            }
            return Err(e);
        },
    }
    match write_pos(dst, record.position) {
        Ok(_) => {},
        Err(e) => {
            proof {
                assert(dst@.subrange(0, old(dst)@.len() as int) =~= old(dst)@);
            }
            return Err(e);
        },
    }
    crate::endian::push_u32_le(dst, 1u32);
    write_qual(dst, record.quality_bits);
    if record.info.len() > 0xffff {
        proof {
            assert(dst@.subrange(0, old(dst)@.len() as int) =~= old(dst)@);
        }
        return Err(Error::InvalidInput);
    }
    crate::endian::push_u16_le(dst, record.info.len() as u16);
    let alt_len: usize = if record.alternate_bases.len() == 0 {
        1
    } else {
        record.alternate_bases.len()
    };
    if alt_len > 0xfffe {
        proof {
            assert(dst@.subrange(0, old(dst)@.len() as int) =~= old(dst)@);
        }
        return Err(Error::InvalidInput);
    }
    crate::endian::push_u16_le(dst, (1 + alt_len) as u16);
    if sample_count >= 0x100_0000 {
        proof {
            assert(dst@.subrange(0, old(dst)@.len() as int) =~= old(dst)@);
        }
        return Err(Error::InvalidInput);
    }
    crate::endian::push_u32_le(dst, format_count as u32 * 0x100_0000 + sample_count);
    match write_id(dst, &record.ids) {
        Ok(_) => {},
        Err(e) => {
            proof {
                assert(dst@.subrange(0, old(dst)@.len() as int) =~= old(dst)@);
            }
            return Err(e);
        },
    }
    match write_ref_alt(dst, &record.reference_bases, &record.alternate_bases) {
        Ok(_) => {},
        Err(e) => {
            proof {
                assert(dst@.subrange(0, old(dst)@.len() as int) =~= old(dst)@);
            }
            return Err(e);
        },
    }
    match write_filter(dst, string_map, &record.filters) {
        Ok(_) => {},
        Err(e) => {
            proof {
                assert(dst@.subrange(0, old(dst)@.len() as int) =~= old(dst)@);
            }
            return Err(e);
        },
    }
    match write_info(dst, string_map, &record.info) {
        Ok(_) => {},
        Err(e) => {
            proof {
                assert(dst@.subrange(0, old(dst)@.len() as int) =~= old(dst)@);
            }
            return Err(e);
        },
    }
    Ok(())
}

} // verus!
